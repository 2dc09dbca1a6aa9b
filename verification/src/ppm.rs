//! The plain-text pixel map that a rendered image is written as: a three-line
//! header, then one line per pixel with its three channel values.

use vstd::prelude::*;
use crate::decimal::{decimal, push_decimal};
use crate::raster::Raster;

verus! {

/// The ASCII space that separates two numbers on a line.
pub const SPACE: u8 = 32;

/// The ASCII line feed that ends every line.
pub const NEWLINE: u8 = 10;

/// The largest channel value that the header declares.
pub const MAX_CHANNEL: u32 = 255;

/// A pixel's three channel values as they are written out. Nothing confines
/// them to `0..=255`: the writer encodes what it is given.
#[derive(Clone, Copy, Debug, PartialEq, Eq, Structural)]
pub struct Rgb {
    pub r: u32,
    pub g: u32,
    pub b: u32,
}

/// The header of an image of `width` by `height` pixels: the format tag `P3`,
/// the two dimensions, and the maximum channel value, each on a line of its own.
pub open spec fn header_text(width: nat, height: nat) -> Seq<u8> {
    seq![80u8, 51u8, NEWLINE] + decimal(width) + seq![SPACE] + decimal(height) + seq![NEWLINE]
        + decimal(MAX_CHANNEL as nat) + seq![NEWLINE]
}

/// The line of one pixel: red, green and blue in decimal, separated by single
/// spaces and ended by a line feed.
pub open spec fn pixel_text(color: Rgb) -> Seq<u8> {
    decimal(color.r as nat) + seq![SPACE] + decimal(color.g as nat) + seq![SPACE] + decimal(
        color.b as nat,
    ) + seq![NEWLINE]
}

/// The lines of a run of pixels, in the order given.
pub open spec fn pixels_text(pixels: Seq<Rgb>) -> Seq<u8>
    decreases pixels.len(),
{
    if pixels.len() == 0 {
        Seq::<u8>::empty()
    } else {
        pixels_text(pixels.drop_last()) + pixel_text(pixels.last())
    }
}

/// The whole file of an image whose pixels are given in raster order.
pub open spec fn image_text(width: nat, height: nat, pixels: Seq<Rgb>) -> Seq<u8> {
    header_text(width, height) + pixels_text(pixels)
}

/// How many lines a text holds, counted by its line feeds.
pub open spec fn line_count(text: Seq<u8>) -> nat
    decreases text.len(),
{
    if text.len() == 0 {
        0
    } else {
        line_count(text.drop_last()) + if text.last() == NEWLINE {
            1nat
        } else {
            0nat
        }
    }
}

/// Appends the header of an image of `width` by `height` pixels to `out`.
pub fn write_header(out: &mut Vec<u8>, width: u32, height: u32)
    ensures
        final(out)@ == old(out)@ + header_text(width as nat, height as nat),
{
    out.push(80u8);
    out.push(51u8);
    out.push(NEWLINE);
    push_decimal(out, width);
    out.push(SPACE);
    push_decimal(out, height);
    out.push(NEWLINE);
    push_decimal(out, MAX_CHANNEL);
    out.push(NEWLINE);
    assert(out@ =~= old(out)@ + header_text(width as nat, height as nat));
}

/// Appends the line of one pixel to `out`.
pub fn write_color(out: &mut Vec<u8>, color: Rgb)
    ensures
        final(out)@ == old(out)@ + pixel_text(color),
{
    push_decimal(out, color.r);
    out.push(SPACE);
    push_decimal(out, color.g);
    out.push(SPACE);
    push_decimal(out, color.b);
    out.push(NEWLINE);
    assert(out@ =~= old(out)@ + pixel_text(color));
}

/// Appends the lines of `pixels` to `out`, first pixel first.
pub fn write_pixels(out: &mut Vec<u8>, pixels: &Vec<Rgb>)
    ensures
        final(out)@ == old(out)@ + pixels_text(pixels@),
{
    let mut i: usize = 0;
    while i < pixels.len()
        invariant
            i <= pixels@.len(),
            out@ == old(out)@ + pixels_text(pixels@.take(i as int)),
        decreases pixels@.len() - i,
    {
        proof {
            assert(pixels@.take(i + 1).drop_last() =~= pixels@.take(i as int));
        }
        write_color(out, pixels[i]);
        i = i + 1;
        assert(out@ =~= old(out)@ + pixels_text(pixels@.take(i as int)));
    }
    assert(pixels@.take(i as int) =~= pixels@);
}

/// The whole file of the image on `grid` whose pixels are given in raster
/// order, or nothing where `pixels` is not one pixel for each place of the
/// grid. The file holds the three header lines and then one line per pixel.
pub fn encode(grid: Raster, pixels: &Vec<Rgb>) -> (text: Option<Vec<u8>>)
    ensures
        text is Some <==> pixels@.len() == grid.count(),
        text matches Some(t) ==> t@ == image_text(
            grid.width as nat,
            grid.height as nat,
            pixels@,
        ) && line_count(t@) == 3 + grid.count(),
{
    if pixels.len() as u64 != grid.pixel_count() {
        return None;
    }
    let mut out: Vec<u8> = Vec::new();
    write_header(&mut out, grid.width, grid.height);
    write_pixels(&mut out, pixels);
    proof {
        lemma_image_lines(grid.width as nat, grid.height as nat, pixels@);
        assert(out@ =~= image_text(grid.width as nat, grid.height as nat, pixels@));
    }
    Some(out)
}

/// Lines add up over concatenation.
pub proof fn lemma_line_count_concat(a: Seq<u8>, b: Seq<u8>)
    ensures
        line_count(a + b) == line_count(a) + line_count(b),
    decreases b.len(),
{
    if b.len() == 0 {
        assert(a + b =~= a);
    } else {
        lemma_line_count_concat(a, b.drop_last());
        assert((a + b).drop_last() =~= a + b.drop_last());
    }
}

/// A number's decimal text holds no line feed.
pub proof fn lemma_decimal_one_line(n: nat)
    ensures
        line_count(decimal(n)) == 0,
    decreases n,
{
    reveal_with_fuel(line_count, 2);
    if n < 10 {
        assert(decimal(n).drop_last() =~= Seq::<u8>::empty());
    } else {
        lemma_decimal_one_line(n / 10);
        assert(decimal(n).drop_last() =~= decimal(n / 10));
    }
}

/// The header is exactly three lines.
pub proof fn lemma_header_lines(width: nat, height: nat)
    ensures
        line_count(header_text(width, height)) == 3,
{
    let tag = seq![80u8, 51u8, NEWLINE];
    let sp = seq![SPACE];
    let nl = seq![NEWLINE];
    reveal_with_fuel(line_count, 4);
    assert(line_count(tag) == 1) by {
        assert(tag.drop_last() =~= seq![80u8, 51u8]);
        assert(tag.drop_last().drop_last() =~= seq![80u8]);
        assert(tag.drop_last().drop_last().drop_last() =~= Seq::<u8>::empty());
    }
    assert(line_count(sp) == 0) by {
        assert(sp.drop_last() =~= Seq::<u8>::empty());
    }
    assert(line_count(nl) == 1) by {
        assert(nl.drop_last() =~= Seq::<u8>::empty());
    }
    lemma_decimal_one_line(width);
    lemma_decimal_one_line(height);
    lemma_decimal_one_line(MAX_CHANNEL as nat);
    let t1 = tag + decimal(width);
    let t2 = t1 + sp;
    let t3 = t2 + decimal(height);
    let t4 = t3 + nl;
    let t5 = t4 + decimal(MAX_CHANNEL as nat);
    lemma_line_count_concat(tag, decimal(width));
    lemma_line_count_concat(t1, sp);
    lemma_line_count_concat(t2, decimal(height));
    lemma_line_count_concat(t3, nl);
    lemma_line_count_concat(t4, decimal(MAX_CHANNEL as nat));
    lemma_line_count_concat(t5, nl);
}

/// A pixel is exactly one line.
pub proof fn lemma_pixel_line(color: Rgb)
    ensures
        line_count(pixel_text(color)) == 1,
{
    let sp = seq![SPACE];
    let nl = seq![NEWLINE];
    reveal_with_fuel(line_count, 2);
    assert(line_count(sp) == 0) by {
        assert(sp.drop_last() =~= Seq::<u8>::empty());
    }
    assert(line_count(nl) == 1) by {
        assert(nl.drop_last() =~= Seq::<u8>::empty());
    }
    lemma_decimal_one_line(color.r as nat);
    lemma_decimal_one_line(color.g as nat);
    lemma_decimal_one_line(color.b as nat);
    let t1 = decimal(color.r as nat) + sp;
    let t2 = t1 + decimal(color.g as nat);
    let t3 = t2 + sp;
    let t4 = t3 + decimal(color.b as nat);
    lemma_line_count_concat(decimal(color.r as nat), sp);
    lemma_line_count_concat(t1, decimal(color.g as nat));
    lemma_line_count_concat(t2, sp);
    lemma_line_count_concat(t3, decimal(color.b as nat));
    lemma_line_count_concat(t4, nl);
}

/// A run of pixels is written as one line per pixel.
pub proof fn lemma_pixels_lines(pixels: Seq<Rgb>)
    ensures
        line_count(pixels_text(pixels)) == pixels.len(),
    decreases pixels.len(),
{
    if pixels.len() > 0 {
        lemma_pixels_lines(pixels.drop_last());
        lemma_pixel_line(pixels.last());
        lemma_line_count_concat(pixels_text(pixels.drop_last()), pixel_text(pixels.last()));
    }
}

/// The file of an image has three header lines and then one line for each
/// pixel, whatever the pixels hold.
pub proof fn lemma_image_lines(width: nat, height: nat, pixels: Seq<Rgb>)
    ensures
        line_count(image_text(width, height, pixels)) == 3 + pixels.len(),
{
    lemma_header_lines(width, height);
    lemma_pixels_lines(pixels);
    lemma_line_count_concat(header_text(width, height), pixels_text(pixels));
}

} // verus!
