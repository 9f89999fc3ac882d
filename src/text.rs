//! Splitting freshly read bytes into text lines.
//!
//! A line ends at a newline byte; a carriage return right before that newline
//! belongs to the terminator. A final piece without a newline is a line too,
//! unless it is empty.

use vstd::prelude::*;
use vstd::utf8::{decode_utf8, valid_utf8};

verus! {

pub const NEWLINE: u8 = 10;

pub const CARRIAGE_RETURN: u8 = 13;

/// A terminated line without the carriage return of a CRLF terminator.
pub open spec fn without_cr(s: Seq<u8>) -> Seq<u8> {
    if s.len() > 0 && s.last() == CARRIAGE_RETURN {
        s.drop_last()
    } else {
        s
    }
}

/// The lines of `d`, given that `cur` holds the bytes of the current line
/// read so far.
pub open spec fn split_from(d: Seq<u8>, cur: Seq<u8>) -> Seq<Seq<u8>>
    decreases d.len(),
{
    if d.len() == 0 {
        if cur.len() == 0 {
            seq![]
        } else {
            seq![cur]
        }
    } else if d[0] == NEWLINE {
        seq![without_cr(cur)] + split_from(d.drop_first(), seq![])
    } else {
        split_from(d.drop_first(), cur.push(d[0]))
    }
}

/// The lines held by `d`, as bytes, without their terminators.
pub open spec fn split_lines(d: Seq<u8>) -> Seq<Seq<u8>> {
    split_from(d, seq![])
}

/// Every line is valid UTF-8.
pub open spec fn all_valid_utf8(ls: Seq<Seq<u8>>) -> bool {
    forall|i: int| 0 <= i < ls.len() ==> valid_utf8(#[trigger] ls[i])
}

/// The text of each line.
pub open spec fn decode_all(ls: Seq<Seq<u8>>) -> Seq<Seq<char>> {
    ls.map_values(|l: Seq<u8>| decode_utf8(l))
}

/// The characters of each string.
pub open spec fn strings_view(v: Seq<String>) -> Seq<Seq<char>> {
    v.map_values(|s: String| s@)
}

/// `p` occurs in `t` as a run of consecutive characters.
pub open spec fn occurs_in(p: Seq<char>, t: Seq<char>) -> bool {
    exists|i: int| 0 <= i && i + p.len() <= t.len() && #[trigger] t.subrange(i, i + p.len()) == p
}

/// Relies on str::contains with a string pattern: true when the pattern
/// matches a sub-slice of the text. Both being valid UTF-8, a matching
/// sub-slice starts and ends on character boundaries.
#[verifier::external_body]
pub(crate) fn text_contains(text: &str, pattern: &str) -> (r: bool)
    ensures
        r == occurs_in(pattern@, text@),
{
    text.contains(pattern)
}

/// Relies on std::str::from_utf8: it accepts exactly the valid UTF-8 byte
/// sequences, and the text it gives back is the one they encode.
#[verifier::external_body]
fn utf8_text(bytes: &[u8]) -> (r: Option<String>)
    ensures
        r is Some <==> valid_utf8(bytes@),
        r matches Some(s) ==> s@ == decode_utf8(bytes@),
{
    match std::str::from_utf8(bytes) {
        Ok(s) => Some(s.to_string()),
        Err(_) => None,
    }
}

proof fn lemma_views_push(out: Seq<String>, s: String, raw: Seq<Seq<u8>>, line: Seq<u8>)
    requires
        strings_view(out) == decode_all(raw),
        s@ == decode_utf8(line),
    ensures
        strings_view(out.push(s)) == decode_all(raw.push(line)),
{
    let a = strings_view(out.push(s));
    let b = decode_all(raw.push(line));
    assert(strings_view(out).len() == out.len());
    assert forall|k: int| 0 <= k < a.len() implies a[k] == b[k] by {
        if k < out.len() {
            assert(strings_view(out)[k] == out[k]@);
            assert(decode_all(raw)[k] == decode_utf8(raw[k]));
        }
    }
    assert(a =~= b);
}

/// The lines held by `data`, decoded as UTF-8; `None` when one of them is not
/// valid UTF-8.
pub fn decode_lines(data: &[u8]) -> (r: Option<Vec<String>>)
    ensures
        r is Some <==> all_valid_utf8(split_lines(data@)),
        r matches Some(v) ==> strings_view(v@) == decode_all(split_lines(data@)),
{
    let n = data.len();
    let mut out: Vec<String> = Vec::new();
    let ghost mut raw: Seq<Seq<u8>> = seq![];
    let mut start: usize = 0;
    let mut j: usize = 0;
    assert(data@.subrange(0, n as int) =~= data@);
    assert(data@.subrange(0, 0) =~= Seq::<u8>::empty());
    while j < n
        invariant
            n == data@.len(),
            start <= j <= n,
            all_valid_utf8(raw),
            strings_view(out@) == decode_all(raw),
            raw + split_from(data@.subrange(j as int, n as int), data@.subrange(start as int, j as int))
                == split_lines(data@),
        decreases n - j,
    {
        let ghost rest = data@.subrange(j as int, n as int);
        let ghost cur = data@.subrange(start as int, j as int);
        assert(rest.drop_first() =~= data@.subrange(j + 1, n as int));
        assert(rest[0] == data@[j as int]);
        if data[j] == NEWLINE {
            let end: usize = if j > start && data[j - 1] == CARRIAGE_RETURN {
                j - 1
            } else {
                j
            };
            assert(data@.subrange(start as int, end as int) =~= without_cr(cur));
            let piece = &data[start..end];
            match utf8_text(piece) {
                Some(s) => {
                    proof {
                        assert(piece@ == without_cr(cur));
                        lemma_views_push(out@, s, raw, without_cr(cur));
                        assert(data@.subrange(j + 1, j + 1) =~= Seq::<u8>::empty());
                        assert(raw.push(without_cr(cur)) + split_from(
                            data@.subrange(j + 1, n as int),
                            seq![],
                        ) =~= raw + split_from(rest, cur));
                        raw = raw.push(without_cr(cur));
                    }
                    out.push(s);
                    start = j + 1;
                },
                None => {
                    proof {
                        let all = split_lines(data@);
                        assert(all[raw.len() as int] == without_cr(cur));
                    }
                    return None;
                },
            }
        } else {
            assert(cur.push(data@[j as int]) =~= data@.subrange(start as int, j + 1));
        }
        j = j + 1;
    }
    assert(data@.subrange(n as int, n as int) =~= Seq::<u8>::empty());
    if start < n {
        let ghost cur = data@.subrange(start as int, n as int);
        let piece = &data[start..n];
        match utf8_text(piece) {
            Some(s) => {
                proof {
                    assert(raw.push(cur) =~= split_lines(data@));
                    lemma_views_push(out@, s, raw, cur);
                }
                out.push(s);
            },
            None => {
                proof {
                    assert(split_lines(data@)[raw.len() as int] == cur);
                }
                return None;
            },
        }
    } else {
        assert(raw =~= split_lines(data@));
    }
    Some(out)
}

} // verus!
