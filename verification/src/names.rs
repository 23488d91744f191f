//! Card-name records and name normalization.
//!
//! A card name is normalized for search by canonical Unicode decomposition
//! followed by ASCII folding: ASCII letters and digits are kept lowercase,
//! runs of whitespace collapse to one space, everything else is dropped.
//! Double-faced names ("Front // Back") additionally get each face
//! normalized on its own.

use vstd::prelude::*;

verus! {

/// Artwork locations of one card printing, as the metadata service hands
/// them out.
#[derive(Clone, Debug)]
pub struct ScryfallImageUris {
    pub large: String,
    pub png: String,
}

/// One face of a card record: its artwork locations, if it has its own.
#[derive(Clone, Debug)]
pub struct ScryfallCardFace {
    pub image_uris: Option<ScryfallImageUris>,
}

/// Whether a character is an ASCII letter or digit.
pub open spec fn is_ascii_alnum(c: char) -> bool {
    ||| ('a' <= c && c <= 'z')
    ||| ('A' <= c && c <= 'Z')
    ||| ('0' <= c && c <= '9')
}

/// ASCII lowercase folding: `A`–`Z` map to `a`–`z`, all else unchanged.
pub open spec fn lower_ascii(c: char) -> char {
    if 'A' <= c && c <= 'Z' {
        ((c as u32) + 32) as char
    } else {
        c
    }
}

/// Whether a character has the Unicode `White_Space` property.
pub uninterp spec fn white_space(c: char) -> bool;

/// What canonical decomposition (normalization form D) of a character
/// sequence yields.
pub uninterp spec fn nfd_of(s: Seq<char>) -> Seq<char>;

pub assume_specification[ char::is_ascii_alphanumeric ](c: &char) -> (r: bool)
    ensures
        r == is_ascii_alnum(*c),
;

pub assume_specification[ char::to_ascii_lowercase ](c: &char) -> (r: char)
    ensures
        r == lower_ascii(*c),
;

pub assume_specification[ char::is_whitespace ](c: char) -> (r: bool)
    ensures
        r == white_space(c),
;

/// Relies on `unicode_normalization`'s `nfd` iterator: canonical
/// decomposition is a function of the characters alone, and an empty
/// sequence stays empty.
#[verifier::external_body]
fn nfd_chars(chars: &Vec<char>) -> (r: Vec<char>)
    ensures
        r@ == nfd_of(chars@),
        chars@.len() == 0 ==> r@.len() == 0,
{
    unicode_normalization::UnicodeNormalization::nfd(chars.iter().copied()).collect()
}

/// Relies on `String::from_utf8`: ASCII bytes form a valid string whose
/// characters are exactly those bytes.
#[verifier::external_body]
fn ascii_to_string(bytes: Vec<u8>) -> (r: String)
    requires
        forall|i: int| 0 <= i < bytes@.len() ==> bytes@[i] < 128,
    ensures
        r@.len() == bytes@.len(),
        forall|i: int| 0 <= i < bytes@.len() ==> r@[i] == bytes@[i] as char,
{
    String::from_utf8(bytes).unwrap_or_default()
}

/// The normalized suffix from position `i`, given whether the character
/// before it was folded to a space.
pub open spec fn norm_from(s: Seq<char>, i: int, last_space: bool) -> Seq<char>
    decreases s.len() - i,
{
    if i < 0 || i >= s.len() {
        Seq::empty()
    } else {
        let c = s[i];
        if is_ascii_alnum(c) {
            seq![lower_ascii(c)] + norm_from(s, i + 1, false)
        } else if white_space(c) {
            if last_space {
                norm_from(s, i + 1, true)
            } else {
                seq![' '] + norm_from(s, i + 1, true)
            }
        } else {
            norm_from(s, i + 1, last_space)
        }
    }
}

/// The normalized form of a character sequence.
pub open spec fn normalize_spec(s: Seq<char>) -> Seq<char> {
    norm_from(s, 0, false)
}

/// The characters of the bytes of an ASCII buffer.
spec fn char_seq(bytes: Seq<u8>) -> Seq<char> {
    Seq::new(bytes.len(), |k: int| bytes[k] as char)
}

/// Fold a decomposed character sequence: lowercase ASCII letters and
/// digits are kept, whitespace runs collapse to single spaces, the rest is
/// dropped.
fn normalize_chars(chars: &Vec<char>) -> (r: String)
    ensures
        r@ == normalize_spec(chars@),
{
    let s = chars;
    let n = s.len();
    let mut out: Vec<u8> = Vec::new();
    let mut last_space = false;
    let mut i: usize = 0;
    while i < n
        invariant
            0 <= i <= n,
            n == s@.len(),
            forall|k: int| 0 <= k < out@.len() ==> out@[k] < 128,
            char_seq(out@) + norm_from(s@, i as int, last_space) == normalize_spec(s@),
        decreases n - i,
    {
        let c = s[i];
        let ghost pre = out@;
        let ghost pre_last = last_space;
        if c.is_ascii_alphanumeric() {
            let lc = c.to_ascii_lowercase();
            proof {
                assert((lower_ascii(c) as u32) < 128);
            }
            out.push(lc as u8);
            last_space = false;
            proof {
                assert(char_seq(out@) =~= char_seq(pre).push(lower_ascii(c)));
                assert(char_seq(pre) + norm_from(s@, i as int, pre_last)
                    =~= char_seq(out@) + norm_from(s@, i + 1, false));
            }
        } else if c.is_whitespace() {
            if !last_space {
                out.push(32u8);
                last_space = true;
                proof {
                    assert(char_seq(out@) =~= char_seq(pre).push(' '));
                    assert(char_seq(pre) + norm_from(s@, i as int, pre_last)
                        =~= char_seq(out@) + norm_from(s@, i + 1, true));
                }
            }
        }
        i += 1;
    }
    proof {
        assert(char_seq(out@) + norm_from(s@, n as int, last_space) =~= char_seq(out@));
    }
    let r = ascii_to_string(out);
    proof {
        assert(r@ =~= normalize_spec(s@));
    }
    r
}

/// The characters of a string, in order.
fn chars_of(s: &str) -> (r: Vec<char>)
    ensures
        r@ == s@,
{
    let n = s.unicode_len();
    let mut out: Vec<char> = Vec::new();
    let mut i: usize = 0;
    while i < n
        invariant
            0 <= i <= n,
            n == s@.len(),
            out@ == s@.subrange(0, i as int),
        decreases n - i,
    {
        let c = s.get_char(i);
        out.push(c);
        proof {
            assert(out@ =~= s@.subrange(0, i + 1));
        }
        i += 1;
    }
    proof {
        assert(out@ =~= s@);
    }
    out
}

/// The face separator in a double-faced card name.
pub open spec fn face_sep() -> Seq<char> {
    seq![' ', '/', '/', ' ']
}

/// Whether the separator starts at position `i`.
pub open spec fn is_sep_at(s: Seq<char>, i: int) -> bool {
    0 <= i && i + 4 <= s.len() && s.subrange(i, i + 4) == face_sep()
}

/// The first separator position at or after `from`; the sequence length
/// when there is none.
pub open spec fn first_sep_at(s: Seq<char>, from: int) -> int
    decreases s.len() - from,
{
    if from < 0 || from + 4 > s.len() {
        s.len() as int
    } else if is_sep_at(s, from) {
        from
    } else {
        first_sep_at(s, from + 1)
    }
}

/// Whether the name holds a face separator at all.
pub open spec fn has_sep(s: Seq<char>) -> bool {
    first_sep_at(s, 0) < s.len()
}

/// The front-face segment: everything before the first separator.
pub open spec fn front_seg(s: Seq<char>) -> Seq<char> {
    s.subrange(0, first_sep_at(s, 0))
}

/// The back-face segment: from after the first separator up to the next
/// one, or the end.
pub open spec fn back_seg(s: Seq<char>) -> Seq<char> {
    let i = first_sep_at(s, 0);
    s.subrange(i + 4, first_sep_at(s, i + 4))
}

/// Find the first separator at or after `from` (the length when none).
fn find_sep(chars: &Vec<char>, from: usize) -> (r: usize)
    requires
        from <= chars@.len(),
    ensures
        r == first_sep_at(chars@, from as int),
        from <= r <= chars@.len(),
{
    let n = chars.len();
    let mut i: usize = from;
    loop
        invariant
            from <= i <= n,
            n == chars@.len(),
            first_sep_at(chars@, from as int) == first_sep_at(chars@, i as int),
        decreases n - i,
    {
        if n - i < 4 {
            proof {
                lemma_first_sep_bounds(chars@, i as int);
            }
            return n;
        }
        if chars[i] == ' ' && chars[i + 1] == '/' && chars[i + 2] == '/' && chars[i + 3] == ' ' {
            proof {
                assert(chars@.subrange(i as int, i + 4) =~= face_sep());
                assert(is_sep_at(chars@, i as int));
            }
            return i;
        }
        proof {
            assert(!is_sep_at(chars@, i as int)) by {
                if is_sep_at(chars@, i as int) {
                    assert(chars@.subrange(i as int, i + 4)[0] == chars@[i as int]);
                    assert(chars@.subrange(i as int, i + 4)[1] == chars@[i + 1]);
                    assert(chars@.subrange(i as int, i + 4)[2] == chars@[i + 2]);
                    assert(chars@.subrange(i as int, i + 4)[3] == chars@[i + 3]);
                }
            }
        }
        i += 1;
    }
}

proof fn lemma_first_sep_bounds(s: Seq<char>, from: int)
    ensures
        from + 4 > s.len() ==> first_sep_at(s, from) == s.len(),
{
}

/// The characters of `chars` from `from` up to `to`.
fn slice_chars(chars: &Vec<char>, from: usize, to: usize) -> (r: Vec<char>)
    requires
        from <= to <= chars@.len(),
    ensures
        r@ == chars@.subrange(from as int, to as int),
{
    let mut out: Vec<char> = Vec::new();
    let mut i: usize = from;
    while i < to
        invariant
            from <= i <= to <= chars@.len(),
            out@ == chars@.subrange(from as int, i as int),
        decreases to - i,
    {
        out.push(chars[i]);
        proof {
            assert(out@ =~= chars@.subrange(from as int, i + 1));
        }
        i += 1;
    }
    out
}

/// A card name with its normalized search forms: the whole name, and the
/// two faces of a double-faced name when the separator occurs in it.
#[derive(Clone, Debug)]
pub struct NormalName {
    pub original: String,
    pub normal: String,
    pub normal_front: Option<String>,
    pub normal_back: Option<String>,
}

impl NormalName {
    /// Normalize a card name: the whole name always; the front and back
    /// segments exactly when the face separator occurs in the original.
    pub fn new(original: &str) -> (r: NormalName)
        ensures
            r.original@ == original@,
            r.normal@ == normalize_spec(nfd_of(original@)),
            has_sep(original@) ==> {
                &&& r.normal_front matches Some(f) && f@ == normalize_spec(nfd_of(front_seg(original@)))
                &&& r.normal_back matches Some(b) && b@ == normalize_spec(nfd_of(back_seg(original@)))
            },
            !has_sep(original@) ==> r.normal_front is None && r.normal_back is None,
    {
        let chars = chars_of(original);
        let decomposed = nfd_chars(&chars);
        let normal = normalize_chars(&decomposed);
        let mut normal_front: Option<String> = None;
        let mut normal_back: Option<String> = None;
        let sep = find_sep(&chars, 0);
        if sep < chars.len() {
            proof {
                lemma_sep_found(chars@, sep as int);
            }
            let front = slice_chars(&chars, 0, sep);
            let front_dec = nfd_chars(&front);
            normal_front = Some(normalize_chars(&front_dec));
            let next = find_sep(&chars, sep + 4);
            let back = slice_chars(&chars, sep + 4, next);
            let back_dec = nfd_chars(&back);
            normal_back = Some(normalize_chars(&back_dec));
        }
        NormalName {
            original: original.to_owned(),
            normal,
            normal_front,
            normal_back,
        }
    }
}

/// A found separator lies at least four characters before the end.
proof fn lemma_sep_found(s: Seq<char>, sep: int)
    requires
        first_sep_at(s, 0) == sep,
        sep < s.len(),
    ensures
        is_sep_at(s, sep),
        sep + 4 <= s.len(),
    decreases s.len(),
{
    lemma_sep_found_from(s, 0, sep);
}

proof fn lemma_sep_found_from(s: Seq<char>, from: int, sep: int)
    requires
        0 <= from,
        first_sep_at(s, from) == sep,
        sep < s.len(),
    ensures
        is_sep_at(s, sep),
        sep + 4 <= s.len(),
    decreases s.len() - from,
{
    if from + 4 > s.len() {
        assert(false);
    } else if is_sep_at(s, from) {
    } else {
        lemma_sep_found_from(s, from + 1, sep);
    }
}

} // verus!
