//! Card identity: which artwork a request refers to.
//!
//! A card is identified by a 128-bit identifier together with the face
//! (front or back) that should be rendered. `CardOptions` is one caller
//! request (identity plus a quantity); `CardKey` is the deduplication and
//! cache identity derived from it.

use vstd::prelude::*;

verus! {

/// Which face of a card to render.
#[derive(Clone, Copy, PartialEq, Eq, Structural, Debug)]
pub enum CardFace {
    Front,
    Back,
}

impl CardFace {
    /// The query-string form of the face selector.
    pub fn as_str(&self) -> (r: &'static str)
        ensures
            *self is Front ==> r@ == "front"@,
            *self is Back ==> r@ == "back"@,
    {
        match self {
            CardFace::Front => "front",
            CardFace::Back => "back",
        }
    }
}

/// A card identifier: the 128-bit value of the card's UUID.
#[derive(Clone, Copy, PartialEq, Eq, Structural, Debug)]
pub struct CardId {
    pub value: u128,
}

/// One caller request: a card identity and how many copies to print.
#[derive(Clone, Copy, PartialEq, Eq, Structural, Debug)]
pub struct CardOptions {
    pub id: CardId,
    pub face: CardFace,
    pub quantity: u32,
}

/// The cache/fetch identity of one artwork: identifier plus face.
#[derive(Clone, Copy, PartialEq, Eq, Structural, Debug)]
pub struct CardKey {
    pub id: CardId,
    pub face: CardFace,
}

/// The key under which a request's artwork is cached and fetched.
pub open spec fn key_of(c: CardOptions) -> CardKey {
    CardKey { id: c.id, face: c.face }
}

impl From<CardOptions> for CardKey {
    fn from(value: CardOptions) -> (r: CardKey) {
        CardKey { id: value.id, face: value.face }
    }
}

impl vstd::std_specs::convert::FromSpecImpl<CardOptions> for CardKey {
    open spec fn obeys_from_spec() -> bool {
        true
    }

    open spec fn from_spec(value: CardOptions) -> CardKey {
        key_of(value)
    }
}


/// The hexadecimal digit character for one nibble value.
pub open spec fn hex_char(d: int) -> char {
    if d == 0 { '0' }
    else if d == 1 { '1' }
    else if d == 2 { '2' }
    else if d == 3 { '3' }
    else if d == 4 { '4' }
    else if d == 5 { '5' }
    else if d == 6 { '6' }
    else if d == 7 { '7' }
    else if d == 8 { '8' }
    else if d == 9 { '9' }
    else if d == 10 { 'a' }
    else if d == 11 { 'b' }
    else if d == 12 { 'c' }
    else if d == 13 { 'd' }
    else if d == 14 { 'e' }
    else { 'f' }
}

/// Nibble `i` of a 128-bit value, most significant first (`i` in 0..32).
pub open spec fn nibble(v: u128, i: int) -> u128 {
    (v >> (((31 - i) * 4) as u128)) & 0xf
}

/// The hex digits of nibbles `from` up to `to`, most significant first.
pub open spec fn hex_range(v: u128, from: int, to: int) -> Seq<char>
    decreases to - from,
{
    if from >= to {
        Seq::empty()
    } else {
        hex_range(v, from, to - 1).push(hex_char(nibble(v, to - 1) as int))
    }
}

/// The canonical hyphenated form of a card identifier: five groups of
/// 8, 4, 4, 4 and 12 lowercase hex digits.
pub open spec fn uuid_chars(v: u128) -> Seq<char> {
    hex_range(v, 0, 8) + seq!['-'] + hex_range(v, 8, 12) + seq!['-'] + hex_range(v, 12, 16)
        + seq!['-'] + hex_range(v, 16, 20) + seq!['-'] + hex_range(v, 20, 32)
}

/// The query-string form of a face selector.
pub open spec fn face_chars(f: CardFace) -> Seq<char> {
    if f is Front { "front"@ } else { "back"@ }
}

/// The artwork retrieval address of a card key.
pub open spec fn image_url_chars(k: CardKey) -> Seq<char> {
    "https://api.scryfall.com/cards/"@ + uuid_chars(k.id.value)
        + "?format=image&version=png&face="@ + face_chars(k.face)
}

/// One hex digit as a string slice.
fn hex_digit(d: u8) -> (r: &'static str)
    requires
        d < 16,
    ensures
        r@ == seq![hex_char(d as int)],
{
    let digits = "0123456789abcdef";
    proof {
        reveal_strlit("0123456789abcdef");
    }
    let r = digits.substring_ascii(d as usize, d as usize + 1);
    proof {
        assert(r@ =~= seq![hex_char(d as int)]);
    }
    r
}

/// Append the hex digits of nibbles `from` up to `to` of `v`.
fn append_hex_range(s: &mut String, v: u128, from: u32, to: u32)
    requires
        from <= to <= 32,
    ensures
        final(s)@ == old(s)@ + hex_range(v, from as int, to as int),
{
    let mut i = from;
    while i < to
        invariant
            from <= i <= to <= 32,
            s@ == old(s)@ + hex_range(v, from as int, i as int),
        decreases to - i,
    {
        let sh: u128 = (((31 - i) * 4) as u128);
        let nib = ((v >> sh) & 0xf) as u8;
        proof {
            assert((v >> sh) & 0xf < 16) by (bit_vector);
            assert(nib == nibble(v, i as int));
            assert(hex_range(v, from as int, i + 1)
                == hex_range(v, from as int, i as int).push(hex_char(nibble(v, i as int) as int)));
        }
        s.append(hex_digit(nib));
        i += 1;
    }
}

/// The address from which a card key's artwork is retrieved: the card's
/// hyphenated identifier and its face selector, on the card image service.
pub fn card_image_url(key: &CardKey) -> (r: String)
    ensures
        r@ == image_url_chars(*key),
{
    let v = key.id.value;
    let mut s = "https://api.scryfall.com/cards/".to_owned();
    append_hex_range(&mut s, v, 0, 8);
    s.append("-");
    append_hex_range(&mut s, v, 8, 12);
    s.append("-");
    append_hex_range(&mut s, v, 12, 16);
    s.append("-");
    append_hex_range(&mut s, v, 16, 20);
    s.append("-");
    append_hex_range(&mut s, v, 20, 32);
    s.append("?format=image&version=png&face=");
    s.append(key.face.as_str());
    proof {
        reveal_strlit("-");
        assert(s@ =~= image_url_chars(*key));
    }
    s
}

} // verus!
