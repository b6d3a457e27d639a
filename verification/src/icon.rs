//! The app icon's letters and its container files. The owner's initials
//! ("Sam" -> SD, "JD" -> JD, nothing usable -> MD) and the `.icns` and
//! `.ico` files that wrap the rendered PNGs; drawing the letters is the
//! caller's.

use vstd::prelude::*;

use ab_glyph::Font;

use crate::text::{chars_of, is_ws, string_of, trim, trim_vec};

verus! {

/// What `char::is_alphabetic` says of a character (the Unicode Alphabetic
/// property).
pub uninterp spec fn spec_is_alphabetic(c: char) -> bool;

/// What `char::is_uppercase` says of a character (the Unicode Uppercase
/// property).
pub uninterp spec fn spec_is_uppercase(c: char) -> bool;

/// The first character of `char::to_uppercase` of a character.
pub uninterp spec fn spec_upper_first(c: char) -> char;

/// The glyph id the font in `font` (OpenType bytes, as `ab_glyph::FontRef`
/// reads them) gives a character; `None` when the bytes are not a font.
pub uninterp spec fn spec_glyph_id(font: Seq<u8>, c: char) -> Option<u16>;

/// `char::is_alphabetic`. Claims only that the result is the one
/// `spec_is_alphabetic` names.
#[verifier::external_body]
fn is_alphabetic(c: char) -> (r: bool)
    ensures
        r == spec_is_alphabetic(c),
{
    c.is_alphabetic()
}

/// `char::is_uppercase`. Claims only that the result is the one
/// `spec_is_uppercase` names.
#[verifier::external_body]
fn is_uppercase(c: char) -> (r: bool)
    ensures
        r == spec_is_uppercase(c),
{
    c.is_uppercase()
}

/// `char::to_uppercase`, its first character (there always is one). Claims
/// only that the result is the one `spec_upper_first` names.
#[verifier::external_body]
fn upper_first(c: char) -> (r: char)
    ensures
        r == spec_upper_first(c),
{
    c.to_uppercase().next().unwrap_or(c)
}

/// `ab_glyph::FontRef::try_from_slice(font)`, then `Font::glyph_id(c)`, its
/// number; `None` when the font does not read. Claims only that the result
/// is the one `spec_glyph_id` names.
#[verifier::external_body]
fn glyph_id(font: &[u8], c: char) -> (r: Option<u16>)
    ensures
        r == spec_glyph_id(font@, c),
{
    match ab_glyph::FontRef::try_from_slice(font) {
        Ok(f) => Some(f.glyph_id(c).0),
        Err(_) => None,
    }
}

/// The font has a glyph for the character: it reads, and the id it gives
/// is not 0, the missing glyph.
pub open spec fn has_glyph(font: Seq<u8>, c: char) -> bool {
    spec_glyph_id(font, c) matches Some(id) && id != 0
}

fn has_glyph_exec(font: &[u8], c: char) -> (r: bool)
    ensures
        r == has_glyph(font@, c),
{
    match glyph_id(font, c) {
        Some(id) => id != 0,
        None => false,
    }
}

/// A letter the icon can show: alphabetic and in the font.
pub open spec fn drawable(font: Seq<u8>, c: char) -> bool {
    spec_is_alphabetic(c) && has_glyph(font, c)
}

pub open spec fn not_space(s: Seq<char>) -> Seq<char>
    decreases s.len(),
{
    if s.len() == 0 {
        Seq::empty()
    } else if is_ws(s.last()) {
        not_space(s.drop_last())
    } else {
        not_space(s.drop_last()).push(s.last())
    }
}

pub open spec fn first_alphabetic(s: Seq<char>) -> Option<char>
    decreases s.len(),
{
    if s.len() == 0 {
        None
    } else if spec_is_alphabetic(s[0]) {
        Some(s[0])
    } else {
        first_alphabetic(s.drop_first())
    }
}

/// The icon's letters: two capitals typed on purpose are taken as they are;
/// otherwise the name's first letter (upper case) and D for Daily; MD when
/// the font cannot draw that.
pub open spec fn spec_initials(input: Seq<char>, font: Seq<u8>) -> Seq<char> {
    let word = trim(input);
    let letters = not_space(word);
    if letters.len() == 2 && spec_is_uppercase(letters[0]) && drawable(font, letters[0]) && spec_is_uppercase(
        letters[1],
    ) && drawable(font, letters[1]) {
        letters
    } else {
        match first_alphabetic(word) {
            Some(c) => if drawable(font, spec_upper_first(c)) {
                seq![spec_upper_first(c), 'D']
            } else {
                "MD"@
            },
            None => "MD"@,
        }
    }
}

pub fn initials(input: &str, font: &[u8]) -> (r: String)
    ensures
        r@ == spec_initials(input@, font@),
{
    let v = chars_of(input);
    let word = trim_vec(v.as_slice());
    let mut letters: Vec<char> = Vec::new();
    let mut k: usize = 0;
    assert(word@.take(0) =~= Seq::<char>::empty());
    while k < word.len()
        invariant
            k <= word.len(),
            letters@ == not_space(word@.take(k as int)),
        decreases word.len() - k,
    {
        assert(word@.take(k + 1).drop_last() =~= word@.take(k as int));
        assert(word@.take(k + 1).last() == word@[k as int]);
        if !crate::text::is_whitespace(word[k]) {
            letters.push(word[k]);
        }
        k = k + 1;
    }
    assert(word@.take(k as int) =~= word@);
    if letters.len() == 2 {
        let a = letters[0];
        let b = letters[1];
        if is_uppercase(a) && is_alphabetic(a) && has_glyph_exec(font, a) && is_uppercase(b) && is_alphabetic(b)
            && has_glyph_exec(font, b) {
            return string_of(letters.as_slice());
        }
    }
    let mut j: usize = 0;
    assert(word@.skip(0) =~= word@);
    while j < word.len() && !is_alphabetic(word[j])
        invariant
            j <= word.len(),
            first_alphabetic(word@) == first_alphabetic(word@.skip(j as int)),
        decreases word.len() - j,
    {
        assert(word@.skip(j as int).drop_first() =~= word@.skip(j + 1));
        assert(word@.skip(j as int)[0] == word@[j as int]);
        j = j + 1;
    }
    if j < word.len() {
        assert(word@.skip(j as int)[0] == word@[j as int]);
        let u = upper_first(word[j]);
        if is_alphabetic(u) && has_glyph_exec(font, u) {
            let pair = [u, 'D'];
            assert(pair@ =~= seq![u, 'D']);
            return string_of(pair.as_slice());
        }
    } else {
        assert(word@.skip(j as int) =~= Seq::<char>::empty());
    }
    let md = ['M', 'D'];
    proof {
        reveal_strlit("MD");
    }
    assert(md@ =~= "MD"@);
    string_of(md.as_slice())
}

// --------------------------------------------------------------------- PNG

/// What `png::Encoder` writes for an RGBA image `size` pixels square, eight
/// bits a channel: `None` when the encoder turns it down.
pub uninterp spec fn spec_png(rgba: Seq<u8>, size: u32) -> Option<Seq<u8>>;

pub open spec fn opt_bytes(r: Option<Vec<u8>>) -> Option<Seq<u8>> {
    match r {
        Some(v) => Some(v@),
        None => None,
    }
}

/// `png::Encoder::new(.., size, size)` set to RGBA, eight bits, then
/// `write_header` and `write_image_data(rgba)`; the bytes written when both
/// succeed. Claims only that the result is the one `spec_png` names.
#[verifier::external_body]
fn encode_png(rgba: &[u8], size: u32) -> (r: Option<Vec<u8>>)
    ensures
        opt_bytes(r) == spec_png(rgba@, size),
{
    let mut out: Vec<u8> = Vec::new();
    let mut enc = png::Encoder::new(&mut out, size, size);
    enc.set_color(png::ColorType::Rgba);
    enc.set_depth(png::BitDepth::Eight);
    let ok = match enc.write_header() {
        Ok(mut w) => w.write_image_data(rgba).is_ok(),
        Err(_) => false,
    };
    if ok { Some(out) } else { None }
}

/// The icon drawn at one size as a PNG file, from its pixels (RGBA, four
/// bytes a pixel, row after row). Pixels that do not fill the square are
/// turned down before the encoder sees them.
pub fn png_file(rgba: &[u8], size: u32) -> (r: Option<Vec<u8>>)
    ensures
        rgba@.len() != 4 * size * size ==> r is None,
        rgba@.len() == 4 * size * size ==> opt_bytes(r) == spec_png(rgba@, size),
{
    let n = size as u128;
    assert(n * n <= 0xFFFF_FFFF * 0xFFFF_FFFF) by (nonlinear_arith)
        requires
            n <= 0xFFFF_FFFF,
    ;
    let want: u128 = 4 * (n * n);
    assert(4 * (n * n) == 4 * size * size) by (nonlinear_arith)
        requires
            n == size,
    ;
    if (rgba.len() as u128) != want {
        return None;
    }
    encode_png(rgba, size)
}

// ---------------------------------------------------------------- containers

/// Four bytes, most significant first.
pub open spec fn be32(n: u32) -> Seq<u8> {
    seq![(n / 0x1000000) as u8, ((n / 0x10000) % 256) as u8, ((n / 0x100) % 256) as u8, (n % 256) as u8]
}

/// Four bytes, least significant first.
pub open spec fn le32(n: u32) -> Seq<u8> {
    seq![(n % 256) as u8, ((n / 0x100) % 256) as u8, ((n / 0x10000) % 256) as u8, (n / 0x1000000) as u8]
}

fn push_be32(out: &mut Vec<u8>, n: u32)
    ensures
        final(out)@ == old(out)@ + be32(n),
{
    out.push((n / 0x1000000) as u8);
    out.push(((n / 0x10000) % 256) as u8);
    out.push(((n / 0x100) % 256) as u8);
    out.push((n % 256) as u8);
    assert(out@ =~= old(out)@ + be32(n));
}

fn push_le32(out: &mut Vec<u8>, n: u32)
    ensures
        final(out)@ == old(out)@ + le32(n),
{
    out.push((n % 256) as u8);
    out.push(((n / 0x100) % 256) as u8);
    out.push(((n / 0x10000) % 256) as u8);
    out.push((n / 0x1000000) as u8);
    assert(out@ =~= old(out)@ + le32(n));
}

fn push_all(out: &mut Vec<u8>, bytes: &[u8])
    ensures
        final(out)@ == old(out)@ + bytes@,
{
    let mut k: usize = 0;
    while k < bytes.len()
        invariant
            k <= bytes.len(),
            out@ == old(out)@ + bytes@.take(k as int),
        decreases bytes.len() - k,
    {
        out.push(bytes[k]);
        assert(bytes@.take(k + 1) =~= bytes@.take(k as int).push(bytes@[k as int]));
        k = k + 1;
    }
    assert(bytes@.take(k as int) =~= bytes@);
}

/// The entries of an `.icns` file: each PNG after its four-letter tag and
/// its length (the eight header bytes included).
pub open spec fn icns_body(entries: Seq<(Seq<u8>, Seq<u8>)>) -> Seq<u8>
    decreases entries.len(),
{
    if entries.len() == 0 {
        Seq::empty()
    } else {
        let (tag, png) = entries.last();
        icns_body(entries.drop_last()) + tag + be32((png.len() + 8) as u32) + png
    }
}

pub open spec fn entries_view(entries: Seq<([u8; 4], Vec<u8>)>) -> Seq<(Seq<u8>, Seq<u8>)> {
    entries.map_values(|e: ([u8; 4], Vec<u8>)| (e.0@, e.1@))
}

/// An `.icns` file: "icns", the file's length, the entries.
pub open spec fn spec_icns(entries: Seq<(Seq<u8>, Seq<u8>)>) -> Seq<u8> {
    "icns"@.map_values(|c: char| c as u8) + be32((icns_body(entries).len() + 8) as u32) + icns_body(entries)
}

/// Writes an `.icns` file. Each PNG, and the whole file, must leave its
/// length field room (under 4 GiB).
pub fn icns_file(entries: &Vec<([u8; 4], Vec<u8>)>) -> (r: Vec<u8>)
    requires
        icns_body(entries_view(entries@)).len() + 8 <= u32::MAX,
    ensures
        r@ == spec_icns(entries_view(entries@)),
{
    let ghost ev = entries_view(entries@);
    let mut body: Vec<u8> = Vec::new();
    let mut k: usize = 0;
    assert(ev.take(0) =~= Seq::<(Seq<u8>, Seq<u8>)>::empty());
    while k < entries.len()
        invariant
            k <= entries.len(),
            ev == entries_view(entries@),
            ev.len() == entries.len(),
            icns_body(ev).len() + 8 <= u32::MAX,
            body@ == icns_body(ev.take(k as int)),
        decreases entries.len() - k,
    {
        assert(ev.take(k + 1).drop_last() =~= ev.take(k as int));
        assert(ev.take(k + 1).last() == ev[k as int]);
        proof {
            lemma_icns_body_prefix(ev, k + 1);
        }
        let png = &entries[k].1;
        push_all(&mut body, entries[k].0.as_slice());
        push_be32(&mut body, (png.len() + 8) as u32);
        push_all(&mut body, png.as_slice());
        k = k + 1;
    }
    assert(ev.take(k as int) =~= ev);
    let mut out: Vec<u8> = Vec::new();
    out.push(0x69);
    out.push(0x63);
    out.push(0x6e);
    out.push(0x73);
    proof {
        reveal_strlit("icns");
    }
    assert(out@ =~= "icns"@.map_values(|c: char| c as u8));
    push_be32(&mut out, (body.len() + 8) as u32);
    push_all(&mut out, body.as_slice());
    out
}

proof fn lemma_icns_body_prefix(entries: Seq<(Seq<u8>, Seq<u8>)>, k: int)
    requires
        0 <= k <= entries.len(),
    ensures
        icns_body(entries.take(k)).len() <= icns_body(entries).len(),
        k > 0 ==> entries[k - 1].1.len() + 4 <= icns_body(entries).len(),
    decreases entries.len() - k,
{
    if k < entries.len() {
        lemma_icns_body_prefix(entries, k + 1);
        assert(entries.take(k + 1).drop_last() =~= entries.take(k));
    } else {
        assert(entries.take(k) =~= entries);
    }
    if k > 0 {
        let t = entries.take(k);
        assert(t.last() == entries[k - 1]);
        let (tag, png) = t.last();
        assert(icns_body(t) == icns_body(t.drop_last()) + tag + be32((png.len() + 8) as u32) + png);
        assert(be32((png.len() + 8) as u32).len() == 4);
        assert(icns_body(t).len() >= png.len() + 4);
    }
}

/// The size byte of an `.ico` entry: the edge in pixels, 0 for 256 and up.
pub open spec fn ico_edge(size: u32) -> u8 {
    if size >= 256 {
        0
    } else {
        size as u8
    }
}

/// The directory entries of an `.ico` file, the first image at `offset`.
pub open spec fn ico_entries(sizes: Seq<u32>, pngs: Seq<Seq<u8>>, offset: nat) -> Seq<u8>
    decreases sizes.len(),
{
    if sizes.len() == 0 || pngs.len() == 0 {
        Seq::empty()
    } else {
        let e = ico_edge(sizes[0]);
        seq![e, e, 0u8, 0u8, 1u8, 0u8, 32u8, 0u8] + le32(pngs[0].len() as u32) + le32(offset as u32)
            + ico_entries(sizes.drop_first(), pngs.drop_first(), offset + pngs[0].len())
    }
}

pub open spec fn concat_all(pngs: Seq<Seq<u8>>) -> Seq<u8>
    decreases pngs.len(),
{
    if pngs.len() == 0 {
        Seq::empty()
    } else {
        concat_all(pngs.drop_last()) + pngs.last()
    }
}

/// An `.ico` file: the header (the image count as 16 bits, wrapping as `as
/// u16` does), one directory entry per PNG, the PNGs.
pub open spec fn spec_ico(sizes: Seq<u32>, pngs: Seq<Seq<u8>>) -> Seq<u8> {
    seq![0u8, 0u8, 1u8, 0u8, (sizes.len() % 256) as u8, ((sizes.len() / 256) % 256) as u8] + ico_entries(
        sizes,
        pngs,
        6 + 16 * sizes.len(),
    ) + concat_all(pngs)
}

pub open spec fn pngs_view(pngs: Seq<Vec<u8>>) -> Seq<Seq<u8>> {
    pngs.map_values(|p: Vec<u8>| p@)
}

pub open spec fn total_len(pngs: Seq<Seq<u8>>) -> nat
    decreases pngs.len(),
{
    if pngs.len() == 0 {
        0
    } else {
        total_len(pngs.drop_last()) + pngs.last().len()
    }
}

proof fn lemma_total_len_prefix(pngs: Seq<Seq<u8>>, k: int)
    requires
        0 <= k <= pngs.len(),
    ensures
        total_len(pngs.take(k)) <= total_len(pngs),
    decreases pngs.len() - k,
{
    if k < pngs.len() {
        lemma_total_len_prefix(pngs, k + 1);
        assert(pngs.take(k + 1).drop_last() =~= pngs.take(k));
    } else {
        assert(pngs.take(k) =~= pngs);
    }
}

proof fn lemma_ico_entries_split(sizes: Seq<u32>, pngs: Seq<Seq<u8>>, offset: nat, k: int)
    requires
        sizes.len() == pngs.len(),
        0 <= k < sizes.len(),
    ensures
        ico_entries(sizes.take(k + 1), pngs.take(k + 1), offset) == ico_entries(sizes.take(k), pngs.take(k), offset)
            + seq![ico_edge(sizes[k]), ico_edge(sizes[k]), 0u8, 0u8, 1u8, 0u8, 32u8, 0u8] + le32(pngs[k].len() as u32)
            + le32((offset + total_len(pngs.take(k))) as u32),
    decreases k,
{
    if k == 0 {
        assert(sizes.take(1).drop_first() =~= Seq::<u32>::empty());
        assert(pngs.take(1).drop_first() =~= Seq::<Seq<u8>>::empty());
        assert(pngs.take(0) =~= Seq::<Seq<u8>>::empty());
        assert(ico_entries(sizes.take(0), pngs.take(0), offset) == Seq::<u8>::empty());
        assert(ico_entries(sizes.take(1).drop_first(), pngs.take(1).drop_first(), offset + pngs[0].len())
            == Seq::<u8>::empty());
        assert(ico_entries(sizes.take(1), pngs.take(1), offset) =~= Seq::<u8>::empty() + seq![
            ico_edge(sizes[0]),
            ico_edge(sizes[0]),
            0u8,
            0u8,
            1u8,
            0u8,
            32u8,
            0u8,
        ] + le32(pngs[0].len() as u32) + le32((offset + total_len(pngs.take(0))) as u32));
    } else {
        let s1 = sizes.drop_first();
        let p1 = pngs.drop_first();
        lemma_ico_entries_split(s1, p1, offset + pngs[0].len(), k - 1);
        assert(sizes.take(k + 1).drop_first() =~= s1.take(k));
        assert(pngs.take(k + 1).drop_first() =~= p1.take(k));
        assert(sizes.take(k).drop_first() =~= s1.take(k - 1));
        assert(pngs.take(k).drop_first() =~= p1.take(k - 1));
        lemma_total_len_first(pngs.take(k));
        assert(pngs.take(k).drop_first() =~= p1.take(k - 1));
        assert(s1[k - 1] == sizes[k]);
        assert(p1[k - 1] == pngs[k]);
        assert(ico_entries(sizes.take(k + 1), pngs.take(k + 1), offset) =~= ico_entries(
            sizes.take(k),
            pngs.take(k),
            offset,
        ) + seq![ico_edge(sizes[k]), ico_edge(sizes[k]), 0u8, 0u8, 1u8, 0u8, 32u8, 0u8] + le32(pngs[k].len() as u32)
            + le32((offset + total_len(pngs.take(k))) as u32));
    }
}

proof fn lemma_total_len_first(pngs: Seq<Seq<u8>>)
    requires
        pngs.len() > 0,
    ensures
        total_len(pngs) == pngs[0].len() + total_len(pngs.drop_first()),
    decreases pngs.len(),
{
    if pngs.len() > 1 {
        lemma_total_len_first(pngs.drop_last());
        assert(pngs.drop_last().drop_first() =~= pngs.drop_first().drop_last());
    } else {
        assert(pngs.drop_last() =~= Seq::<Seq<u8>>::empty());
        assert(pngs.drop_first() =~= Seq::<Seq<u8>>::empty());
    }
}

/// Writes an `.ico` file of PNGs, one per size. The offsets must fit in 32
/// bits.
pub fn ico_file(sizes: &Vec<u32>, pngs: &Vec<Vec<u8>>) -> (r: Vec<u8>)
    requires
        sizes.len() == pngs.len(),
        6 + 16 * sizes.len() + total_len(pngs_view(pngs@)) <= u32::MAX,
    ensures
        r@ == spec_ico(sizes@, pngs_view(pngs@)),
{
    let ghost pv = pngs_view(pngs@);
    let n = sizes.len();
    let mut out: Vec<u8> = Vec::new();
    out.push(0);
    out.push(0);
    out.push(1);
    out.push(0);
    out.push((n % 256) as u8);
    out.push(((n / 256) % 256) as u8);
    let ghost head = out@;
    let first: u32 = (6 + 16 * n) as u32;
    let mut offset: u32 = first;
    let mut k: usize = 0;
    assert(sizes@.take(0) =~= Seq::<u32>::empty());
    assert(pv.take(0) =~= Seq::<Seq<u8>>::empty());
    while k < n
        invariant
            k <= n,
            n == sizes.len(),
            n == pngs.len(),
            pv == pngs_view(pngs@),
            pv.len() == n,
            first == 6 + 16 * n,
            first + total_len(pv) <= u32::MAX,
            offset == first + total_len(pv.take(k as int)),
            out@ == head + ico_entries(sizes@.take(k as int), pv.take(k as int), first as nat),
        decreases n - k,
    {
        proof {
            lemma_ico_entries_split(sizes@, pv, first as nat, k as int);
            lemma_total_len_prefix(pv, k + 1);
            assert(pv.take(k + 1).drop_last() =~= pv.take(k as int));
            assert(pv.take(k + 1).last() == pv[k as int]);
        }
        let size = sizes[k];
        let edge: u8 = if size >= 256 {
            0
        } else {
            size as u8
        };
        let len = pngs[k].len();
        let ghost before = out@;
        out.push(edge);
        out.push(edge);
        out.push(0);
        out.push(0);
        out.push(1);
        out.push(0);
        out.push(32);
        out.push(0);
        push_le32(&mut out, len as u32);
        push_le32(&mut out, offset);
        assert(out@ =~= before + seq![edge, edge, 0u8, 0u8, 1u8, 0u8, 32u8, 0u8] + le32(len as u32) + le32(offset));
        offset = offset + len as u32;
        k = k + 1;
    }
    assert(sizes@.take(n as int) =~= sizes@);
    assert(pv.take(n as int) =~= pv);
    let mut j: usize = 0;
    let ghost mid = out@;
    assert(pv.take(0) =~= Seq::<Seq<u8>>::empty());
    while j < n
        invariant
            j <= n,
            n == pngs.len(),
            pv == pngs_view(pngs@),
            out@ == mid + concat_all(pv.take(j as int)),
        decreases n - j,
    {
        assert(pv.take(j + 1).drop_last() =~= pv.take(j as int));
        assert(pv.take(j + 1).last() == pngs@[j as int]@);
        push_all(&mut out, pngs[j].as_slice());
        j = j + 1;
    }
    assert(pv.take(n as int) =~= pv);
    out
}

} // verus!
