use vstd::prelude::*;

verus! {

/// A palette as stored: 15-bit colours, five bits per channel.
pub struct RawPalette {
    pub name: String,
    pub id: String,
    pub entries: Vec<u16>,
}

/// A palette ready for drawing: 24-bit colours.
pub struct Palette {
    pub name: String,
    pub id: String,
    pub entries: Vec<u32>,
}

/// The five-bit channel `i` (0 red, 1 green, 2 blue) of a 15-bit colour.
pub open spec fn channel5(color: u16, i: int) -> int {
    (color as int / pow32(i)) % 32
}

pub open spec fn pow32(i: int) -> int {
    if i == 0 { 1 } else if i == 1 { 32 } else { 1024 }
}

/// The 24-bit colour whose byte `i` holds channel `i` scaled from five bits
/// to eight.
pub open spec fn spec_convert_color(color: u16) -> int {
    channel5(color, 0) * 8 + channel5(color, 1) * 8 * 0x100 + channel5(color, 2) * 8 * 0x10000
}

impl Palette {
    /// Widens a 15-bit colour to 24 bits, each channel moved into its own byte.
    pub fn convert_color(color: u16) -> (r: u32)
        ensures
            r as int == spec_convert_color(color),
    {
        let c = color as u32;
        let r = ((c & 0x1f) << 3) | ((c & 0x3e0) << 6) | ((c & 0x7c00) << 9);
        assert(r == (c % 32) * 8 + ((c / 32) % 32) * 2048 + ((c / 1024) % 32) * 524288
            && c < 0x10000) by (bit_vector)
            requires
                c < 0x10000,
                r == ((c & 0x1f) << 3) | ((c & 0x3e0) << 6) | ((c & 0x7c00) << 9),
        ;
        r
    }

    /// Converts every entry of a stored palette, keeping its order.
    pub fn from_raw(raw: RawPalette) -> (p: Palette)
        ensures
            p.name == raw.name,
            p.id == raw.id,
            p.entries@.len() == raw.entries@.len(),
            forall|i: int| 0 <= i < raw.entries@.len() ==>
                p.entries@[i] as int == spec_convert_color(#[trigger] raw.entries@[i]),
    {
        let mut entries: Vec<u32> = Vec::new();
        let mut i: usize = 0;
        while i < raw.entries.len()
            invariant
                i <= raw.entries@.len(),
                entries@.len() == i,
                forall|j: int| 0 <= j < i ==>
                    entries@[j] as int == spec_convert_color(#[trigger] raw.entries@[j]),
            decreases raw.entries@.len() - i,
        {
            entries.push(Palette::convert_color(raw.entries[i]));
            i += 1;
        }
        Palette { name: raw.name, id: raw.id, entries }
    }
}

} // verus!
