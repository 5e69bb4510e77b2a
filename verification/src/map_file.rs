//! The text format of a map file.
//!
//! A file has one line for each layer, the first line for the first layer.
//! A line holds the tiles of its layer as tokens, with blanks between them.
//! A token is ten bytes, `t:xxxxyyyy`: the id of the tile's kind, a colon,
//! and the two coordinates of its cell, each in four decimal digits.

use vstd::prelude::*;
use crate::editor::LAYER_COUNT;
use crate::tile_map::TileIndex;
use crate::tile::{TileType, TILE_TYPE_COUNT};

verus! {

/// One tile of a map file: its layer, its kind and its cell.
#[derive(Debug, Clone, Copy, PartialEq, Eq)]
pub struct MapEntry {
    pub layer: usize,
    pub tile: TileType,
    pub index: TileIndex,
}

/// The number of bytes in a token.
pub const TOKEN_LEN: usize = 10;

/// The byte that ends a line.
pub const NEWLINE: u8 = 0x0a;

/// The byte that the writer puts between two tokens of a line.
pub const SPACE: u8 = 0x20;

/// The byte between a token's tile id and its coordinates.
pub const COLON: u8 = 0x3a;

/// The byte of the digit zero.
pub const ZERO: u8 = 0x30;

impl MapEntry {
    /// Whether a map file can hold this tile: its layer exists and its cell
    /// lies in the grid.
    pub open spec fn valid(self) -> bool {
        &&& self.layer < LAYER_COUNT
        &&& self.index.spec_in_grid()
    }
}

/// Whether `b` separates tokens inside a line: a space, a tab or a carriage
/// return.
pub open spec fn is_blank(b: u8) -> bool {
    b == SPACE || b == 0x09 || b == 0x0d
}

/// Whether `b` is a decimal digit.
pub open spec fn is_digit(b: u8) -> bool {
    ZERO <= b <= 0x39
}

/// The four decimal digits of `n`, the thousands first.
pub open spec fn four_digits(n: u32) -> Seq<u8>
    recommends
        n <= 9999,
{
    seq![
        (ZERO + n / 1000) as u8,
        (ZERO + n / 100 % 10) as u8,
        (ZERO + n / 10 % 10) as u8,
        (ZERO + n % 10) as u8,
    ]
}

/// The number that the four decimal digits `s` stand for.
pub open spec fn number(s: Seq<u8>) -> int
    recommends
        s.len() == 4,
{
    (s[0] - ZERO) * 1000 + (s[1] - ZERO) * 100 + (s[2] - ZERO) * 10 + (s[3] - ZERO)
}

/// The token that stands for a tile of kind `tile` at cell `index`.
#[verifier::opaque]
pub open spec fn token(tile: TileType, index: TileIndex) -> Seq<u8>
    recommends
        index.spec_in_grid(),
{
    seq![(ZERO + tile.spec_id()) as u8, COLON] + four_digits(index.0.0) + four_digits(index.0.1)
}

/// Whether `s` is a token: the id of a tile kind, a colon, and eight
/// digits.
pub open spec fn is_token(s: Seq<u8>) -> bool {
    &&& s.len() == TOKEN_LEN
    &&& is_digit(s[0])
    &&& s[0] - ZERO < TILE_TYPE_COUNT
    &&& s[1] == COLON
    &&& forall|i: int| 2 <= i < TOKEN_LEN ==> is_digit(#[trigger] s[i])
}

/// The tile that the token `s` stands for, on layer `layer`.
pub open spec fn token_entry(s: Seq<u8>, layer: usize) -> MapEntry
    recommends
        is_token(s),
{
    MapEntry {
        layer,
        tile: TileType::spec_from_u32((s[0] - ZERO) as u32),
        index: TileIndex((number(s.subrange(2, 6)) as u32, number(s.subrange(6, 10)) as u32)),
    }
}

/// `rest` with `done` put in front of it, where there is a `rest`.
pub open spec fn after(done: Seq<MapEntry>, rest: Option<Seq<MapEntry>>) -> Option<Seq<MapEntry>> {
    match rest {
        Some(entries) => Some(done + entries),
        None => None,
    }
}

/// The tiles that `text` holds from byte `pos` on, where byte `pos` lies on
/// line `layer`; `None` if the text is malformed from there on.
///
/// A newline ends the line. A blank is skipped. Any other byte has to start
/// a token, on one of the first `LAYER_COUNT` lines, and a blank, a newline
/// or the end of the text has to follow the token.
pub open spec fn entries_from(text: Seq<u8>, pos: int, layer: nat) -> Option<Seq<MapEntry>>
    decreases text.len() - pos,
{
    if pos < 0 || pos >= text.len() {
        Some(Seq::empty())
    } else if text[pos] == NEWLINE {
        entries_from(text, pos + 1, layer + 1)
    } else if is_blank(text[pos]) {
        entries_from(text, pos + 1, layer)
    } else if layer < LAYER_COUNT && pos + TOKEN_LEN <= text.len() && is_token(
        text.subrange(pos, pos + TOKEN_LEN),
    ) && (pos + TOKEN_LEN == text.len() || text[pos + TOKEN_LEN] == NEWLINE || is_blank(
        text[pos + TOKEN_LEN],
    )) {
        after(
            seq![token_entry(text.subrange(pos, pos + TOKEN_LEN), layer as usize)],
            entries_from(text, pos + TOKEN_LEN, layer),
        )
    } else {
        None
    }
}

/// The tiles that the map file `text` holds, in the order in which they
/// stand in it; `None` if `text` is no map file.
pub open spec fn file_entries(text: Seq<u8>) -> Option<Seq<MapEntry>> {
    entries_from(text, 0, 0)
}

/// The tiles of `entries` that lie on layer `layer`, in their order.
pub open spec fn on_layer(entries: Seq<MapEntry>, layer: usize) -> Seq<MapEntry> {
    entries.filter(|entry: MapEntry| entry.layer == layer)
}

/// The tokens of `entries`, with one space between each two.
pub open spec fn line_text(entries: Seq<MapEntry>) -> Seq<u8>
    decreases entries.len(),
{
    if entries.len() == 0 {
        Seq::empty()
    } else if entries.len() == 1 {
        token(entries[0].tile, entries[0].index)
    } else {
        line_text(entries.drop_last()) + seq![SPACE] + token(
            entries.last().tile,
            entries.last().index,
        )
    }
}

/// The map file that holds `entries`: a line for each layer, each line
/// ended by a newline.
pub open spec fn file_text(entries: Seq<MapEntry>) -> Seq<u8> {
    line_text(on_layer(entries, 0)) + seq![NEWLINE] + line_text(on_layer(entries, 1))
        + seq![NEWLINE] + line_text(on_layer(entries, 2)) + seq![NEWLINE]
}

/// `entries` in the order in which a map file holds them: layer by layer.
pub open spec fn by_layer(entries: Seq<MapEntry>) -> Seq<MapEntry> {
    on_layer(entries, 0) + on_layer(entries, 1) + on_layer(entries, 2)
}

/// Whether `entries` come in the order in which a map file holds them.
#[verifier::opaque]
pub open spec fn in_file_order(entries: Seq<MapEntry>) -> bool {
    by_layer(entries) == entries
}

/// Reads four decimal digits at byte `pos` of `text`.
fn read_number(text: &[u8], pos: usize) -> (value: Option<u32>)
    requires
        pos + 4 <= text@.len(),
    ensures
        value is Some <==> forall|i: int| pos <= i < pos + 4 ==> is_digit(#[trigger] text@[i]),
        value matches Some(n) ==> n == number(text@.subrange(pos as int, pos + 4)) && n <= 9999,
{
    let len: usize = text.len();
    let mut n: u32 = 0;
    let mut i: usize = 0;
    while i < 4
        invariant
            i <= 4,
            pos + 4 <= text@.len() == len,
            forall|k: int| pos <= k < pos + i ==> is_digit(#[trigger] text@[k]),
            i == 0 ==> n == 0,
            i == 1 ==> n == text@[pos as int] - ZERO,
            i == 2 ==> n == (text@[pos as int] - ZERO) * 10 + (text@[pos + 1] - ZERO),
            i == 3 ==> n == (text@[pos as int] - ZERO) * 100 + (text@[pos + 1] - ZERO) * 10 + (
            text@[pos + 2] - ZERO),
            i == 4 ==> n == number(text@.subrange(pos as int, pos + 4)),
        decreases 4 - i,
    {
        let b: u8 = text[pos + i];
        if b < ZERO || b > 0x39 {
            return None;
        }
        n = n * 10 + (b - ZERO) as u32;
        i = i + 1;
    }
    Some(n)
}

/// Reads the token at byte `pos` of `text`, as a tile of layer `layer`.
fn read_token(text: &[u8], pos: usize, layer: usize) -> (entry: Option<MapEntry>)
    requires
        pos + TOKEN_LEN <= text@.len(),
    ensures
        entry == if is_token(text@.subrange(pos as int, pos + TOKEN_LEN)) {
            Some(token_entry(text@.subrange(pos as int, pos + TOKEN_LEN), layer))
        } else {
            None
        },
        entry matches Some(read) ==> read.layer == layer && read.index.spec_in_grid(),
{
    let first: u8 = text[pos];
    if first < ZERO || first > 0x39 {
        return None;
    }
    let id: u32 = (first - ZERO) as u32;
    if id >= TILE_TYPE_COUNT {
        return None;
    }
    let tile = TileType::from_u32(id);
    if text[pos + 1] != COLON {
        return None;
    }
    let x = match read_number(text, pos + 2) {
        Some(x) => x,
        None => {
            return None;
        },
    };
    let y = match read_number(text, pos + 6) {
        Some(y) => y,
        None => {
            return None;
        },
    };
    Some(MapEntry { layer, tile, index: TileIndex((x, y)) })
}

/// Reads a map file: the tiles that `text` holds, in the order in which
/// they stand in it, or `None` if `text` is no map file.
pub fn parse_map(text: &[u8]) -> (entries: Option<Vec<MapEntry>>)
    ensures
        match entries {
            Some(found) => file_entries(text@) == Some(found@),
            None => file_entries(text@) is None,
        },
        entries matches Some(found) ==> forall|i: int|
            0 <= i < found@.len() ==> (#[trigger] found@[i]).valid(),
{
    let mut found: Vec<MapEntry> = Vec::new();
    let mut pos: usize = 0;
    let mut layer: usize = 0;
    while pos < text.len()
        invariant
            pos <= text@.len(),
            layer <= pos,
            file_entries(text@) == after(found@, entries_from(text@, pos as int, layer as nat)),
            forall|i: int| 0 <= i < found@.len() ==> (#[trigger] found@[i]).valid(),
        decreases text@.len() - pos,
    {
        let b: u8 = text[pos];
        if b == NEWLINE {
            layer = layer + 1;
            pos = pos + 1;
        } else if b == SPACE || b == 0x09 || b == 0x0d {
            pos = pos + 1;
        } else {
            if layer >= LAYER_COUNT || text.len() - pos < TOKEN_LEN {
                return None;
            }
            let entry = match read_token(text, pos, layer) {
                Some(entry) => entry,
                None => {
                    return None;
                },
            };
            if pos + TOKEN_LEN < text.len() {
                let next: u8 = text[pos + TOKEN_LEN];
                if !(next == NEWLINE || next == SPACE || next == 0x09 || next == 0x0d) {
                    return None;
                }
            }
            let ghost rest = entries_from(text@, pos + TOKEN_LEN, layer as nat);
            assert(after(found@, after(seq![entry], rest)) == after(found@.push(entry), rest));
            found.push(entry);
            pos = pos + TOKEN_LEN;
        }
    }
    Some(found)
}

/// Appends the four decimal digits of `n` to `out`.
fn write_number(out: &mut Vec<u8>, n: u32)
    requires
        n <= 9999,
    ensures
        final(out)@ == old(out)@ + four_digits(n),
{
    out.push(ZERO + (n / 1000) as u8);
    out.push(ZERO + (n / 100 % 10) as u8);
    out.push(ZERO + (n / 10 % 10) as u8);
    out.push(ZERO + (n % 10) as u8);
}

/// Appends the token of `entry` to `out`.
fn write_token(out: &mut Vec<u8>, entry: &MapEntry)
    requires
        entry.index.spec_in_grid(),
    ensures
        final(out)@ == old(out)@ + token(entry.tile, entry.index),
{
    out.push(ZERO + entry.tile.id() as u8);
    out.push(COLON);
    write_number(out, entry.index.0.0);
    write_number(out, entry.index.0.1);
    assert(out@ =~= old(out)@ + token(entry.tile, entry.index)) by {
        reveal(token);
    }
}

/// What taking one more tile into account does to the tiles of a layer.
proof fn lemma_on_layer_take(entries: Seq<MapEntry>, i: int, layer: usize)
    requires
        0 <= i < entries.len(),
    ensures
        on_layer(entries.take(i + 1), layer) == if entries[i].layer == layer {
            on_layer(entries.take(i), layer).push(entries[i])
        } else {
            on_layer(entries.take(i), layer)
        },
{
    reveal(Seq::filter);
    assert(entries.take(i + 1).drop_last() =~= entries.take(i));
}

/// Appends the line of layer `layer` to `out`, newline included.
fn write_line(out: &mut Vec<u8>, entries: &Vec<MapEntry>, layer: usize)
    requires
        forall|i: int| 0 <= i < entries@.len() ==> (#[trigger] entries@[i]).valid(),
    ensures
        final(out)@ == old(out)@ + line_text(on_layer(entries@, layer)) + seq![NEWLINE],
{
    let mut i: usize = 0;
    let mut first = true;
    proof {
        reveal(Seq::filter);
    }
    while i < entries.len()
        invariant
            i <= entries@.len(),
            forall|k: int| 0 <= k < entries@.len() ==> (#[trigger] entries@[k]).valid(),
            first == (on_layer(entries@.take(i as int), layer).len() == 0),
            out@ == old(out)@ + line_text(on_layer(entries@.take(i as int), layer)),
        decreases entries@.len() - i,
    {
        let entry = &entries[i];
        proof {
            lemma_on_layer_take(entries@, i as int, layer);
        }
        if entry.layer == layer {
            let ghost line = on_layer(entries@.take(i as int), layer);
            assert(line.push(*entry).drop_last() =~= line);
            if !first {
                out.push(SPACE);
            }
            write_token(out, entry);
            first = false;
        }
        i = i + 1;
    }
    assert(entries@.take(i as int) =~= entries@);
    out.push(NEWLINE);
}

/// Writes a map file: the text that holds the tiles of `entries`, which may
/// come in any order.
pub fn encode_map(entries: &Vec<MapEntry>) -> (text: Vec<u8>)
    requires
        forall|i: int| 0 <= i < entries@.len() ==> (#[trigger] entries@[i]).valid(),
    ensures
        text@ == file_text(entries@),
{
    let mut text: Vec<u8> = Vec::new();
    write_line(&mut text, entries, 0);
    write_line(&mut text, entries, 1);
    write_line(&mut text, entries, 2);
    text
}

/// Four written digits are digits, and stand for the number they were
/// written for.
proof fn lemma_digits_read_back(n: u32)
    requires
        n <= 9999,
    ensures
        four_digits(n).len() == 4,
        forall|i: int| 0 <= i < 4 ==> is_digit(#[trigger] four_digits(n)[i]),
        number(four_digits(n)) == n,
{
    let tenths = n as int / 10;
    let hundredths = tenths / 10;
    let thousands = hundredths / 10;
    assert(n as int / 100 == hundredths && n as int / 1000 == thousands) by {
        vstd::arithmetic::div_mod::lemma_div_denominator(n as int, 10, 10);
        vstd::arithmetic::div_mod::lemma_div_denominator(n as int, 100, 10);
    }
    let hundreds = hundredths % 10;
    let tens = tenths % 10;
    let ones = n as int % 10;
    assert(n == thousands * 1000 + hundreds * 100 + tens * 10 + ones && 0 <= thousands <= 9);
    assert(four_digits(n)[0] == ZERO + thousands);
    assert(four_digits(n)[1] == ZERO + hundreds);
    assert(four_digits(n)[2] == ZERO + tens);
    assert(four_digits(n)[3] == ZERO + ones);
}

/// A token is `TOKEN_LEN` bytes long.
proof fn lemma_token_len(tile: TileType, index: TileIndex)
    ensures
        token(tile, index).len() == TOKEN_LEN,
{
    reveal(token);
}

/// A token reads back as the tile it was written for.
proof fn lemma_token_reads_back(entry: MapEntry)
    requires
        entry.valid(),
    ensures
        token(entry.tile, entry.index).len() == TOKEN_LEN,
        is_token(token(entry.tile, entry.index)),
        token_entry(token(entry.tile, entry.index), entry.layer) == entry,
{
    let s = token(entry.tile, entry.index);
    let x = entry.index.0.0;
    let y = entry.index.0.1;
    lemma_digits_read_back(x);
    lemma_digits_read_back(y);
    assert(s.len() == TOKEN_LEN && s[0] == ZERO + entry.tile.spec_id() && s[1] == COLON
        && s.subrange(2, 6) =~= four_digits(x) && s.subrange(6, 10) =~= four_digits(y)) by {
        reveal(token);
    }
    assert forall|i: int| 2 <= i < TOKEN_LEN implies is_digit(#[trigger] s[i]) by {
        if i < 6 {
            assert(s[i] == s.subrange(2, 6)[i - 2]);
        } else {
            assert(s[i] == s.subrange(6, 10)[i - 6]);
        }
    }
}

/// The tiles of a layer are tiles of that layer, and valid where all are.
proof fn lemma_on_layer_valid(entries: Seq<MapEntry>, layer: usize)
    requires
        forall|i: int| 0 <= i < entries.len() ==> (#[trigger] entries[i]).valid(),
    ensures
        forall|i: int|
            0 <= i < on_layer(entries, layer).len() ==> (#[trigger] on_layer(
                entries,
                layer,
            )[i]).valid() && on_layer(entries, layer)[i].layer == layer,
    decreases entries.len(),
{
    reveal(Seq::filter);
    if entries.len() > 0 {
        lemma_on_layer_valid(entries.drop_last(), layer);
    }
}

/// How long a line is, and how it starts: with the token of its first tile,
/// and a space after it where more tiles follow.
proof fn lemma_line_front(entries: Seq<MapEntry>)
    requires
        entries.len() > 0,
    ensures
        line_text(entries).len() == 11 * entries.len() - 1,
        line_text(entries) == if entries.len() == 1 {
            token(entries[0].tile, entries[0].index)
        } else {
            token(entries[0].tile, entries[0].index) + seq![SPACE] + line_text(
                entries.drop_first(),
            )
        },
    decreases entries.len(),
{
    let first_word = token(entries[0].tile, entries[0].index);
    let last_word = token(entries.last().tile, entries.last().index);
    lemma_token_len(entries[0].tile, entries[0].index);
    lemma_token_len(entries.last().tile, entries.last().index);
    if entries.len() >= 2 {
        let shorter = entries.drop_last();
        let tail = entries.drop_first();
        lemma_line_front(shorter);
        assert(tail.last() == entries.last());
        if entries.len() > 2 {
            assert(tail.drop_last() =~= shorter.drop_first());
            assert(line_text(shorter) + seq![SPACE] + last_word =~= first_word + seq![SPACE] + (
            line_text(shorter.drop_first()) + seq![SPACE] + last_word));
        }
    }
}

/// Reading a line of written tiles gives those tiles, and goes on behind
/// the newline that ends the line.
proof fn lemma_read_line(text: Seq<u8>, pos: int, layer: usize, entries: Seq<MapEntry>)
    requires
        forall|i: int|
            0 <= i < entries.len() ==> (#[trigger] entries[i]).valid() && entries[i].layer == layer,
        0 <= pos,
        pos + line_text(entries).len() < text.len(),
        text.subrange(pos, pos + line_text(entries).len()) == line_text(entries),
        text[pos + line_text(entries).len()] == NEWLINE,
    ensures
        entries_from(text, pos, layer as nat) == after(
            entries,
            entries_from(text, pos + line_text(entries).len() + 1, layer as nat + 1),
        ),
    decreases entries.len(),
{
    let line = line_text(entries);
    let behind = entries_from(text, pos + line.len() + 1, layer as nat + 1);
    if entries.len() == 0 {
        assert(entries_from(text, pos, layer as nat) == behind);
        if behind is Some {
            assert(entries + behind->0 =~= behind->0);
        }
    } else {
        let first = entries[0];
        let rest = entries.drop_first();
        let word = token(first.tile, first.index);
        lemma_line_front(entries);
        lemma_token_reads_back(first);
        let whole = text.subrange(pos, pos + line.len());
        assert(text.subrange(pos, pos + TOKEN_LEN) =~= whole.subrange(0, TOKEN_LEN as int));
        assert(whole.subrange(0, TOKEN_LEN as int) =~= word);
        assert(text[pos] == whole[0] == word[0]);
        let here = entries_from(text, pos + TOKEN_LEN, layer as nat);
        if entries.len() == 1 {
            assert(entries =~= seq![first]);
            assert(here == behind);
        } else {
            lemma_line_front(rest);
            assert(text[pos + TOKEN_LEN] == whole[TOKEN_LEN as int] == SPACE);
            assert(text.subrange(pos + 11, pos + 11 + line_text(rest).len()) =~= whole.subrange(
                11,
                line.len() as int,
            ));
            assert(whole.subrange(11, line.len() as int) =~= line_text(rest));
            lemma_read_line(text, pos + 11, layer, rest);
            assert(here == after(rest, behind));
            if behind is Some {
                assert(seq![first] + (rest + behind->0) =~= entries + behind->0);
            }
        }
        assert(entries_from(text, pos, layer as nat) == after(seq![first], here));
    }
}

/// Reading a written map file gives back the tiles that were written, layer
/// by layer, whatever order they were handed over in.
pub proof fn lemma_read_written(entries: Seq<MapEntry>)
    requires
        forall|i: int| 0 <= i < entries.len() ==> (#[trigger] entries[i]).valid(),
    ensures
        file_entries(file_text(entries)) == Some(by_layer(entries)),
{
    let text = file_text(entries);
    let first = on_layer(entries, 0);
    let second = on_layer(entries, 1);
    let third = on_layer(entries, 2);
    let second_at = line_text(first).len() + 1;
    let third_at = second_at + line_text(second).len() + 1;
    let end = third_at + line_text(third).len() + 1;
    lemma_on_layer_valid(entries, 0);
    lemma_on_layer_valid(entries, 1);
    lemma_on_layer_valid(entries, 2);
    assert(text.subrange(0, second_at - 1) =~= line_text(first));
    assert(text.subrange(second_at as int, third_at - 1) =~= line_text(second));
    assert(text.subrange(third_at as int, end - 1) =~= line_text(third));
    lemma_read_line(text, 0, 0, first);
    lemma_read_line(text, second_at as int, 1, second);
    lemma_read_line(text, third_at as int, 2, third);
}

/// Tiles that all lie on one layer make up that layer, and no other.
proof fn lemma_on_layer_of_one_layer(entries: Seq<MapEntry>, of: usize, layer: usize)
    requires
        forall|i: int| 0 <= i < entries.len() ==> (#[trigger] entries[i]).layer == of,
    ensures
        on_layer(entries, layer) == if layer == of {
            entries
        } else {
            Seq::empty()
        },
    decreases entries.len(),
{
    reveal(Seq::filter);
    if entries.len() > 0 {
        lemma_on_layer_of_one_layer(entries.drop_last(), of, layer);
        if layer == of {
            assert(entries.drop_last().push(entries.last()) =~= entries);
        }
    }
}

/// Tiles that come layer by layer are in the order of a map file.
pub proof fn lemma_by_layer_of_layers(
    first: Seq<MapEntry>,
    second: Seq<MapEntry>,
    third: Seq<MapEntry>,
)
    requires
        forall|i: int| 0 <= i < first.len() ==> (#[trigger] first[i]).layer == 0,
        forall|i: int| 0 <= i < second.len() ==> (#[trigger] second[i]).layer == 1,
        forall|i: int| 0 <= i < third.len() ==> (#[trigger] third[i]).layer == 2,
    ensures
        in_file_order(first + second + third),
{
    reveal(in_file_order);
    let all = first + second + third;
    assert forall|layer: usize| #[trigger]
        on_layer(all, layer) == on_layer(first, layer) + on_layer(second, layer) + on_layer(
            third,
            layer,
        ) by {
        let on = |entry: MapEntry| entry.layer == layer;
        Seq::filter_distributes_over_add(first, second, on);
        Seq::filter_distributes_over_add(first + second, third, on);
    }
    lemma_on_layer_of_one_layer(first, 0, 0);
    lemma_on_layer_of_one_layer(first, 0, 1);
    lemma_on_layer_of_one_layer(first, 0, 2);
    lemma_on_layer_of_one_layer(second, 1, 0);
    lemma_on_layer_of_one_layer(second, 1, 1);
    lemma_on_layer_of_one_layer(second, 1, 2);
    lemma_on_layer_of_one_layer(third, 2, 0);
    lemma_on_layer_of_one_layer(third, 2, 1);
    lemma_on_layer_of_one_layer(third, 2, 2);
    assert(on_layer(all, 2) =~= third);
}

/// Reading a map file written for tiles that come in the order of a map
/// file gives back those tiles as they came.
pub proof fn lemma_read_written_in_order(entries: Seq<MapEntry>)
    requires
        forall|i: int| 0 <= i < entries.len() ==> (#[trigger] entries[i]).valid(),
        in_file_order(entries),
    ensures
        file_entries(file_text(entries)) == Some(entries),
{
    reveal(in_file_order);
    lemma_read_written(entries);
}

/// The tiles read from byte `pos` on can be kept in a map file.
proof fn lemma_entries_from_valid(text: Seq<u8>, pos: int, layer: nat)
    ensures
        entries_from(text, pos, layer) matches Some(entries) ==> forall|i: int|
            0 <= i < entries.len() ==> (#[trigger] entries[i]).valid(),
    decreases text.len() - pos,
{
    if 0 <= pos < text.len() {
        if text[pos] == NEWLINE {
            lemma_entries_from_valid(text, pos + 1, layer + 1);
        } else if is_blank(text[pos]) {
            lemma_entries_from_valid(text, pos + 1, layer);
        } else if entries_from(text, pos, layer) is Some {
            let word = text.subrange(pos, pos + TOKEN_LEN);
            let first = token_entry(word, layer as usize);
            let rest = entries_from(text, pos + TOKEN_LEN, layer)->0;
            let entries = entries_from(text, pos, layer)->0;
            lemma_entries_from_valid(text, pos + TOKEN_LEN, layer);
            assert(first.valid()) by {
                assert(forall|i: int| 0 <= i < 4 ==> word.subrange(2, 6)[i] == word[i + 2]);
                assert(forall|i: int| 0 <= i < 4 ==> word.subrange(6, 10)[i] == word[i + 6]);
            }
            assert forall|i: int| 0 <= i < entries.len() implies (
            #[trigger] entries[i]).valid() by {
                if i > 0 {
                    assert(entries[i] == rest[i - 1]);
                }
            }
        }
    }
}

/// Every tile that reading a map file gives can be kept in a map file: its
/// layer exists and its cell lies in the grid.
pub proof fn lemma_read_entries_valid(text: Seq<u8>)
    ensures
        file_entries(text) matches Some(entries) ==> forall|i: int|
            0 <= i < entries.len() ==> (#[trigger] entries[i]).valid(),
{
    lemma_entries_from_valid(text, 0, 0);
}

} // verus!
