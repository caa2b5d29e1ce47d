//! What the library takes from the standard library and from other crates without proof.

use std::collections::hash_map::DefaultHasher;
use std::hash::Hash;
use rand::rngs::StdRng;
use rand::seq::SliceRandom;
use rand::SeedableRng;
use vstd::prelude::*;

use image::GenericImageView;

use crate::text::basic::texts;

verus! {

/// `String::push` puts one character behind the text.
pub assume_specification[ String::push ](s: &mut String, c: char)
    ensures
        final(s)@ == old(s)@.push(c),
;

/// `==` on `str` holds exactly when both texts have the same characters.
pub assume_specification[ <str as PartialEq>::eq ](s: &str, other: &str) -> (res: bool)
    ensures
        res == (s@ == other@),
;

/// The number is one that a `char` can have: no surrogate, and at most `0x10ffff`.
pub open spec fn char_code(n: u32) -> bool {
    n <= 0xd7ff || 0xe000 <= n <= 0x10_ffff
}

/// `char::from_u32` gives the character with the number, and none for what is no character.
pub assume_specification[ char::from_u32 ](n: u32) -> (r: Option<char>)
    ensures
        match r {
            Some(c) => char_code(n) && c as int == n as int,
            None => !char_code(n),
        },
;

/// A letter or a digit of any script, as `char::is_alphanumeric` tells it.
pub uninterp spec fn alphanumeric(c: char) -> bool;

/// `char::is_alphanumeric` tells letters and digits of any script; of ASCII these are the
/// letters of the English alphabet and the ten digits.
pub assume_specification[ char::is_alphanumeric ](c: char) -> (r: bool)
    ensures
        r == alphanumeric(c),
        (c as int) < 128 ==> r == ((48 <= c as int <= 57) || (65 <= c as int <= 90) || (97
            <= c as int <= 122)),
;

/// What `<str as Hash>::hash` writes to a hasher for a text.
pub uninterp spec fn hash_writes(s: Seq<char>) -> Seq<Seq<u8>>;

/// `<str as Hash>::hash` feeds a hasher with writes that depend on the text alone.
#[verifier::external_body]
pub(crate) fn feed_text(s: &str, state: &mut DefaultHasher)
    ensures
        final(state)@ == old(state)@ + hash_writes(s@),
{
    s.hash(state);
}

/// Where the first match of the regular expression `pat` in `hay` begins, counted in bytes;
/// none outside where the expression is not one, none inside where nothing matches.
pub uninterp spec fn regex_start(pat: Seq<char>, hay: Seq<char>) -> Option<Option<usize>>;

/// `regex_lite::Regex::new` and `find`: the expression is compiled, and the beginning of its
/// leftmost match is given. Both depend on the two texts alone; whether an expression is too large
/// to be compiled is measured in bytes of memory.
#[verifier::external_body]
pub(crate) fn find_regex(pat: &str, hay: &str) -> (r: Option<Option<usize>>)
    ensures
        r == regex_start(pat@, hay@),
{
    match regex_lite::Regex::new(pat) {
        Ok(re) => Some(re.find(hay).map(|m| m.start())),
        Err(_) => None,
    }
}

/// A text in quotes, as `format!` writes it with `{:?}`.
pub uninterp spec fn debug_of(s: Seq<char>) -> Seq<char>;

/// `format!` with `{:?}` writes a text in quotes, with what is special in it escaped. How it
/// does so depends on the text alone.
#[verifier::external_body]
pub(crate) fn debug_text(s: &str) -> (r: String)
    ensures
        r@ == debug_of(s@),
{
    format!("{:?}", s)
}

/// A text in capital letters, as `str::to_uppercase` gives it.
pub uninterp spec fn upper_of(s: Seq<char>) -> Seq<char>;

/// A small ASCII letter becomes the capital.
pub open spec fn upper_char(c: char) -> char {
    if 97 <= c as int <= 122 {
        (c as int - 32) as char
    } else {
        c
    }
}

/// `str::to_uppercase` turns small letters of any script into capitals; of an ASCII text these
/// are the letters of the English alphabet, one for one.
pub assume_specification[ str::to_uppercase ](s: &str) -> (r: String)
    ensures
        r@ == upper_of(s@),
        (forall|i: int| 0 <= i < s@.len() ==> (#[trigger] s@[i] as int) < 128) ==> r@ == Seq::new(
            s@.len(),
            |i: int| upper_char(s@[i]),
        ),
;

/// The generator of random numbers of `rand`.
#[verifier::external_type_specification]
#[verifier::external_body]
pub struct ExStdRng(rand::rngs::StdRng);

/// The generator that `StdRng::seed_from_u64` makes of a seed.
pub uninterp spec fn rng_of_seed(seed: u64) -> StdRng;

/// `StdRng::seed_from_u64` makes the same generator of the same seed.
#[verifier::external_body]
pub(crate) fn seed_rng(seed: u64) -> (r: StdRng)
    ensures
        r == rng_of_seed(seed),
{
    StdRng::seed_from_u64(seed)
}

/// The place that `SliceRandom::choose` takes in a slice of `n` items, and the generator as it is
/// then.
pub uninterp spec fn choice_of(rng: StdRng, n: int) -> (int, StdRng);

/// `SliceRandom::choose` on a slice gives the item at a place that the generator and the number of
/// items decide, and changes the generator. Of an empty slice it gives none, and leaves the
/// generator alone.
#[verifier::external_body]
pub(crate) fn draw_text(pool: &Vec<String>, rng: &mut StdRng) -> (r: Option<String>)
    ensures
        match r {
            Some(t) => texts(pool@).contains(t@) && t@ == texts(pool@)[choice_of(
                *old(rng),
                pool@.len() as int,
            ).0],
            None => pool@.len() == 0,
        },
        *final(rng) == if pool@.len() == 0 {
            *old(rng)
        } else {
            choice_of(*old(rng), pool@.len() as int).1
        },
{
    pool.choose(rng).cloned()
}

/// The width and the height that `image::load_from_memory` finds in the bytes of a picture; none
/// where it cannot read them.
pub uninterp spec fn png_dimensions(png: Seq<u8>) -> Option<(u32, u32)>;

/// `image::load_from_memory` reads a picture of a known format, and `dimensions` gives its width
/// and height. The same bytes give the same size, in a process that registers no hook for further
/// formats with `image::hooks`; this library registers none.
#[verifier::external_body]
pub(crate) fn decode_size(png: &[u8]) -> (r: Option<(u32, u32)>)
    ensures
        r == png_dimensions(png@),
{
    image::load_from_memory(png).ok().map(|i| i.dimensions())
}

/// The bytes of the picture that `DynamicImage::resize` makes to fit into the given size, with
/// the filter `Triangle`, written as PNG; none where the picture cannot be read or written.
pub uninterp spec fn resized_png(png: Seq<u8>, w: u32, h: u32) -> Option<Seq<u8>>;

/// `DynamicImage::resize` makes a picture that keeps the proportions and fits into the given
/// size. The same bytes and the same size give the same picture, where no hook for further formats
/// is registered with `image::hooks`. A size far beyond that of the picture is not asked for: there
/// would be no memory for it.
#[verifier::external_body]
pub(crate) fn resize_png(png: &[u8], w: u32, h: u32) -> (r: Option<Vec<u8>>)
    requires
        w > 0,
        h > 0,
        match png_dimensions(png@) {
            Some((own_w, own_h)) => w <= 2 * own_w && h <= 2 * own_h,
            None => true,
        },
    ensures
        match r {
            Some(b) => resized_png(png@, w, h) == Some(b@),
            None => resized_png(png@, w, h) is None,
        },
{
    let img = image::load_from_memory(png).ok()?;
    let small = img.resize(w, h, image::imageops::FilterType::Triangle);
    let mut out: Vec<u8> = Vec::new();
    small.write_to(&mut std::io::Cursor::new(&mut out), image::ImageFormat::Png).ok()?;
    Some(out)
}

} // verus!
