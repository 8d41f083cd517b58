//! Text groundwork for the HTTP modules: turning an ASCII byte buffer
//! into a string, splitting a string on a separator, and rendering a
//! number in decimal. The splitting function is the workhorse of the
//! request parser.

use vstd::prelude::*;
use vstd::string::StrSliceExecFns;
use vstd::string::StringExecFns;
use vstd::utf8::is_ascii_chars;

verus! {

broadcast use vstd::string::group_string_axioms;

/// The characters standing for a run of ASCII bytes, one per byte.
pub open spec fn ascii_view(bytes: Seq<u8>) -> Seq<char> {
    bytes.map(|i: int, b: u8| b as char)
}

/// Relies on String::from_utf8: ASCII bytes are valid UTF-8, and decode
/// to the characters with the same code points, one character per byte.
#[verifier::external_body]
pub fn ascii_to_string(bytes: &[u8]) -> (s: String)
    requires
        forall|i: int| 0 <= i < bytes@.len() ==> bytes@[i] < 128,
    ensures
        s@ == ascii_view(bytes@),
        is_ascii_chars(s@),
{
    String::from_utf8(bytes.to_vec()).unwrap()
}

/// How a character sequence splits on a non-empty separator, leftmost
/// match first: the pieces between the matches, in order, with an empty
/// piece wherever two matches touch. A sequence without a match is one
/// single piece, so the result always holds at least one piece.
pub open spec fn split_chars(s: Seq<char>, sep: Seq<char>) -> Seq<Seq<char>>
    decreases s.len(),
{
    if sep.len() == 0 || s.len() < sep.len() {
        seq![s]
    } else if s.take(sep.len() as int) == sep {
        seq![Seq::<char>::empty()] + split_chars(s.skip(sep.len() as int), sep)
    } else {
        let rest = split_chars(s.drop_first(), sep);
        seq![seq![s[0]] + rest[0]] + rest.skip(1)
    }
}

/// Splitting yields at least one piece.
pub proof fn lemma_split_chars_len(s: Seq<char>, sep: Seq<char>)
    ensures
        split_chars(s, sep).len() >= 1,
    decreases s.len(),
{
    if sep.len() == 0 || s.len() < sep.len() {
    } else if s.take(sep.len() as int) == sep {
        lemma_split_chars_len(s.skip(sep.len() as int), sep);
    } else {
        lemma_split_chars_len(s.drop_first(), sep);
    }
}

/// The piece at `i`, or the empty sequence where there is no such
/// piece: the shape a caller gets from asking a split for one more
/// piece than it has.
pub open spec fn piece(parts: Seq<Seq<char>>, i: int) -> Seq<char> {
    if 0 <= i < parts.len() {
        parts[i]
    } else {
        Seq::empty()
    }
}

/// An optional string, seen as an optional character sequence.
pub open spec fn opt_view(o: Option<String>) -> Option<Seq<char>> {
    match o {
        Some(s) => Some(s@),
        None => None,
    }
}

/// Whether two string slices hold the same characters.
pub fn str_eq(a: &str, b: &str) -> (r: bool)
    ensures
        r == (a@ == b@),
{
    let sa = String::from_str(a);
    let sb = String::from_str(b);
    sa == sb
}

/// Whether `sep` occurs in `s` at character position `i`.
fn sub_matches(s: &str, i: usize, sep: &str) -> (r: bool)
    requires
        s.is_ascii(),
        i + sep@.len() <= s@.len(),
    ensures
        r == (s@.subrange(i as int, i as int + sep@.len() as int) == sep@),
{
    // Pins the character count of `s` to a machine word, so that the
    // index sum below is known not to overflow.
    let _n = s.unicode_len();
    let l = sep.unicode_len();
    let sub = s.substring_ascii(i, i + l);
    str_eq(sub, sep)
}

/// Split `s` on every occurrence of `sep`, leftmost first, exactly as
/// [`split_chars`] describes.
pub fn split_str(s: &str, sep: &str) -> (parts: Vec<String>)
    requires
        s.is_ascii(),
        sep@.len() >= 1,
    ensures
        parts.deep_view() == split_chars(s@, sep@),
        parts@.len() >= 1,
        forall|k: int| 0 <= k < parts@.len() ==> is_ascii_chars(#[trigger] parts@[k]@),
{
    let n = s.unicode_len();
    let sep_len = sep.unicode_len();
    let mut parts: Vec<String> = Vec::new();
    let mut cur = String::new();
    let mut i: usize = 0;
    proof {
        lemma_split_chars_len(s@, sep@);
        assert(s@.skip(0) =~= s@);
    }
    while i < n
        invariant
            s.is_ascii(),
            sep@.len() == sep_len,
            1 <= sep_len,
            n == s@.len(),
            i <= n,
            is_ascii_chars(cur@),
            forall|k: int| 0 <= k < parts@.len() ==> is_ascii_chars(#[trigger] parts@[k]@),
            split_chars(s@.skip(i as int), sep@).len() >= 1,
            split_chars(s@, sep@) == parts.deep_view()
                + seq![cur@ + split_chars(s@.skip(i as int), sep@).first()]
                + split_chars(s@.skip(i as int), sep@).drop_first(),
        decreases n - i,
    {
        let ghost rem = s@.skip(i as int);
        let ghost split_rem = split_chars(rem, sep@);
        let ghost old_deep = parts.deep_view();
        let ghost old_cur = cur@;
        if sep_len <= n - i && sub_matches(s, i, sep) {
            proof {
                assert(rem.take(sep@.len() as int) =~= s@.subrange(
                    i as int, i as int + sep@.len() as int));
                assert(rem.skip(sep@.len() as int) =~= s@.skip(i as int + sep_len as int));
                lemma_split_chars_len(s@.skip(i as int + sep_len as int), sep@);
                assert(split_rem == seq![Seq::<char>::empty()]
                    + split_chars(s@.skip(i as int + sep_len as int), sep@));
            }
            parts.push(cur);
            cur = String::new();
            proof {
                let next = split_chars(s@.skip(i as int + sep_len as int), sep@);
                assert(parts.deep_view() =~= old_deep.push(old_cur));
                assert(split_rem.first() =~= Seq::<char>::empty());
                assert(split_rem.drop_first() =~= next);
                assert(seq![next.first()] + next.drop_first() =~= next);
                assert(split_chars(s@, sep@) =~= parts.deep_view()
                    + seq![cur@ + next.first()]
                    + next.drop_first());
            }
            i = i + sep_len;
        } else {
            let c = s.substring_ascii(i, i + 1);
            proof {
                assert(c@ =~= seq![s@[i as int]]);
            }
            cur.append(c);
            proof {
                let next = split_chars(s@.skip(i as int + 1), sep@);
                lemma_split_chars_len(s@.skip(i as int + 1), sep@);
                assert(cur@ == old_cur + seq![s@[i as int]]);
                assert(rem.drop_first() =~= s@.skip(i as int + 1));
                assert(rem[0] == s@[i as int]);
                if rem.len() < sep@.len() {
                    assert(split_rem == seq![rem]);
                    assert(s@.skip(i as int + 1).len() < sep@.len());
                    assert(next == seq![rem.drop_first()]);
                    assert(cur@ + next.first() =~= old_cur + rem);
                    assert(old_cur + split_rem.first() =~= old_cur + rem);
                    assert(split_chars(s@, sep@) =~= parts.deep_view()
                        + seq![cur@ + next.first()]
                        + next.drop_first());
                } else {
                    assert(!(rem.take(sep@.len() as int) == sep@)) by {
                        assert(rem.take(sep@.len() as int) =~= s@.subrange(
                            i as int, i as int + sep@.len() as int));
                    }
                    assert(split_rem == seq![seq![rem[0]] + next[0]] + next.skip(1));
                    assert(split_rem.first() == seq![rem[0]] + next.first());
                    assert(split_rem.drop_first() =~= next.drop_first()) by {
                        assert(next.skip(1) =~= next.drop_first());
                    }
                    assert(cur@ + next.first() =~= old_cur + split_rem.first());
                    assert(split_chars(s@, sep@) =~= parts.deep_view()
                        + seq![cur@ + next.first()]
                        + next.drop_first());
                }
                assert(is_ascii_chars(cur@));
            }
            i = i + 1;
        }
    }
    proof {
        assert(s@.skip(n as int) =~= Seq::<char>::empty());
        assert(split_chars(Seq::<char>::empty(), sep@) == seq![Seq::<char>::empty()]);
        assert(split_chars(s@, sep@) =~= parts.deep_view() + seq![cur@]);
    }
    let ghost old_deep = parts.deep_view();
    let ghost old_cur = cur@;
    parts.push(cur);
    proof {
        assert(parts.deep_view() =~= old_deep.push(old_cur));
        assert(parts.deep_view() =~= split_chars(s@, sep@));
    }
    parts
}

/// The character standing for one decimal digit.
pub open spec fn digit_char(d: nat) -> char {
    if d == 0 { '0' }
    else if d == 1 { '1' }
    else if d == 2 { '2' }
    else if d == 3 { '3' }
    else if d == 4 { '4' }
    else if d == 5 { '5' }
    else if d == 6 { '6' }
    else if d == 7 { '7' }
    else if d == 8 { '8' }
    else { '9' }
}

/// The decimal rendering of a number: most significant digit first, no
/// leading zero except for zero itself.
pub open spec fn dec_str(n: nat) -> Seq<char>
    decreases n,
{
    if n < 10 {
        seq![digit_char(n)]
    } else {
        dec_str(n / 10) + seq![digit_char(n % 10)]
    }
}

/// One decimal digit as a string.
fn digit_string(d: u64) -> (s: String)
    requires
        d < 10,
    ensures
        s@ == seq![digit_char(d as nat)],
{
    let t: &str = if d == 0 { "0" }
    else if d == 1 { "1" }
    else if d == 2 { "2" }
    else if d == 3 { "3" }
    else if d == 4 { "4" }
    else if d == 5 { "5" }
    else if d == 6 { "6" }
    else if d == 7 { "7" }
    else if d == 8 { "8" }
    else { "9" };
    proof {
        reveal_strlit("0");
        reveal_strlit("1");
        reveal_strlit("2");
        reveal_strlit("3");
        reveal_strlit("4");
        reveal_strlit("5");
        reveal_strlit("6");
        reveal_strlit("7");
        reveal_strlit("8");
        reveal_strlit("9");
        assert(t@ =~= seq![digit_char(d as nat)]);
    }
    String::from_str(t)
}

/// Render a number in decimal.
pub fn dec_u64(n: u64) -> (s: String)
    ensures
        s@ == dec_str(n as nat),
    decreases n,
{
    if n < 10 {
        digit_string(n)
    } else {
        let high = dec_u64(n / 10);
        let low = digit_string(n % 10);
        let r = high.concat(low.as_str());
        proof {
            assert(r@ =~= dec_str(n as nat));
        }
        r
    }
}

} // verus!
