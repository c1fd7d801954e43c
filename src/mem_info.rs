//! The memory record and the table of recognized keys.

use vstd::prelude::*;

verus! {

/// Memory counters read from `/proc/meminfo`, all in kilobytes.
///
/// A counter that the text does not mention is zero.
#[derive(Debug, Clone, Copy, PartialEq, Eq, Structural, Hash)]
pub struct MemInfo {
    pub total: usize,
    pub free: usize,
    pub available: usize,
    pub buffers: usize,
    pub cached: usize,
    pub swap_cached: usize,
    pub active: usize,
    pub inactive: usize,
    pub high_total: usize,
    pub high_free: usize,
    pub low_total: usize,
    pub low_free: usize,
    pub swap_total: usize,
    pub swap_free: usize,
}

/// One counter of [`MemInfo`], named by the key that introduces it.
#[derive(Debug, Clone, Copy, PartialEq, Eq, Structural, Hash)]
pub enum Field {
    Total,
    Free,
    Available,
    Buffers,
    Cached,
    SwapCached,
    Active,
    Inactive,
    HighTotal,
    HighFree,
    LowTotal,
    LowFree,
    SwapTotal,
    SwapFree,
}

/// How many keys the parser recognizes.
pub const FIELD_COUNT: usize = 14;

/// The recognized fields, in the order in which a line is tried against them.
pub open spec fn field_at(k: int) -> Field
    recommends
        0 <= k < FIELD_COUNT,
{
    if k == 0 {
        Field::Total
    } else if k == 1 {
        Field::Free
    } else if k == 2 {
        Field::Available
    } else if k == 3 {
        Field::Buffers
    } else if k == 4 {
        Field::Cached
    } else if k == 5 {
        Field::SwapCached
    } else if k == 6 {
        Field::Active
    } else if k == 7 {
        Field::Inactive
    } else if k == 8 {
        Field::HighTotal
    } else if k == 9 {
        Field::HighFree
    } else if k == 10 {
        Field::LowTotal
    } else if k == 11 {
        Field::LowFree
    } else if k == 12 {
        Field::SwapTotal
    } else {
        Field::SwapFree
    }
}

/// The key of a field as characters, colon included.
pub open spec fn key_chars(f: Field) -> Seq<char> {
    match f {
        Field::Total => "MemTotal:"@,
        Field::Free => "MemFree:"@,
        Field::Available => "MemAvailable:"@,
        Field::Buffers => "Buffers:"@,
        Field::Cached => "Cached:"@,
        Field::SwapCached => "SwapCached:"@,
        Field::Active => "Active:"@,
        Field::Inactive => "Inactive:"@,
        Field::HighTotal => "HighTotal:"@,
        Field::HighFree => "HighFree:"@,
        Field::LowTotal => "LowTotal:"@,
        Field::LowFree => "LowFree:"@,
        Field::SwapTotal => "SwapTotal:"@,
        Field::SwapFree => "SwapFree:"@,
    }
}

/// The key of a field as the ASCII bytes that open its line.
pub open spec fn key_bytes(f: Field) -> Seq<u8> {
    Seq::new(key_chars(f).len(), |i: int| key_chars(f)[i] as u8)
}

impl Field {
    /// The field tried at position `k` of the key table.
    pub fn from_index(k: usize) -> (f: Field)
        requires
            k < FIELD_COUNT,
        ensures
            f == field_at(k as int),
    {
        if k == 0 {
            Field::Total
        } else if k == 1 {
            Field::Free
        } else if k == 2 {
            Field::Available
        } else if k == 3 {
            Field::Buffers
        } else if k == 4 {
            Field::Cached
        } else if k == 5 {
            Field::SwapCached
        } else if k == 6 {
            Field::Active
        } else if k == 7 {
            Field::Inactive
        } else if k == 8 {
            Field::HighTotal
        } else if k == 9 {
            Field::HighFree
        } else if k == 10 {
            Field::LowTotal
        } else if k == 11 {
            Field::LowFree
        } else if k == 12 {
            Field::SwapTotal
        } else {
            Field::SwapFree
        }
    }

    /// The key that opens this field's line, colon included.
    pub fn key(self) -> (r: &'static [u8])
        ensures
            r@ == key_bytes(self),
    {
        let s: &'static str = match self {
            Field::Total => "MemTotal:",
            Field::Free => "MemFree:",
            Field::Available => "MemAvailable:",
            Field::Buffers => "Buffers:",
            Field::Cached => "Cached:",
            Field::SwapCached => "SwapCached:",
            Field::Active => "Active:",
            Field::Inactive => "Inactive:",
            Field::HighTotal => "HighTotal:",
            Field::HighFree => "HighFree:",
            Field::LowTotal => "LowTotal:",
            Field::LowFree => "LowFree:",
            Field::SwapTotal => "SwapTotal:",
            Field::SwapFree => "SwapFree:",
        };
        proof {
            reveal_strlit("MemTotal:");
            reveal_strlit("MemFree:");
            reveal_strlit("MemAvailable:");
            reveal_strlit("Buffers:");
            reveal_strlit("Cached:");
            reveal_strlit("SwapCached:");
            reveal_strlit("Active:");
            reveal_strlit("Inactive:");
            reveal_strlit("HighTotal:");
            reveal_strlit("HighFree:");
            reveal_strlit("LowTotal:");
            reveal_strlit("LowFree:");
            reveal_strlit("SwapTotal:");
            reveal_strlit("SwapFree:");
            assert(s@ == key_chars(self));
            assert(vstd::string::is_ascii(s));
            vstd::string::is_ascii_spec_bytes(s);
        }
        let r = s.as_bytes();
        assert(r@ =~= key_bytes(self));
        r
    }
}

impl MemInfo {
    /// The value of one counter.
    pub open spec fn get(self, f: Field) -> usize {
        match f {
            Field::Total => self.total,
            Field::Free => self.free,
            Field::Available => self.available,
            Field::Buffers => self.buffers,
            Field::Cached => self.cached,
            Field::SwapCached => self.swap_cached,
            Field::Active => self.active,
            Field::Inactive => self.inactive,
            Field::HighTotal => self.high_total,
            Field::HighFree => self.high_free,
            Field::LowTotal => self.low_total,
            Field::LowFree => self.low_free,
            Field::SwapTotal => self.swap_total,
            Field::SwapFree => self.swap_free,
        }
    }

    /// The record with every counter zero.
    pub open spec fn spec_zero() -> MemInfo {
        MemInfo {
            total: 0,
            free: 0,
            available: 0,
            buffers: 0,
            cached: 0,
            swap_cached: 0,
            active: 0,
            inactive: 0,
            high_total: 0,
            high_free: 0,
            low_total: 0,
            low_free: 0,
            swap_total: 0,
            swap_free: 0,
        }
    }

    /// The record with one counter replaced and the others kept.
    pub open spec fn with(self, f: Field, v: usize) -> MemInfo {
        match f {
            Field::Total => MemInfo { total: v, ..self },
            Field::Free => MemInfo { free: v, ..self },
            Field::Available => MemInfo { available: v, ..self },
            Field::Buffers => MemInfo { buffers: v, ..self },
            Field::Cached => MemInfo { cached: v, ..self },
            Field::SwapCached => MemInfo { swap_cached: v, ..self },
            Field::Active => MemInfo { active: v, ..self },
            Field::Inactive => MemInfo { inactive: v, ..self },
            Field::HighTotal => MemInfo { high_total: v, ..self },
            Field::HighFree => MemInfo { high_free: v, ..self },
            Field::LowTotal => MemInfo { low_total: v, ..self },
            Field::LowFree => MemInfo { low_free: v, ..self },
            Field::SwapTotal => MemInfo { swap_total: v, ..self },
            Field::SwapFree => MemInfo { swap_free: v, ..self },
        }
    }

    /// A record with every counter zero.
    pub fn zero() -> (r: MemInfo)
        ensures
            r == MemInfo::spec_zero(),
    {
        MemInfo {
            total: 0,
            free: 0,
            available: 0,
            buffers: 0,
            cached: 0,
            swap_cached: 0,
            active: 0,
            inactive: 0,
            high_total: 0,
            high_free: 0,
            low_total: 0,
            low_free: 0,
            swap_total: 0,
            swap_free: 0,
        }
    }

    /// The value of one counter.
    pub fn field(&self, f: Field) -> (r: usize)
        ensures
            r == self.get(f),
    {
        match f {
            Field::Total => self.total,
            Field::Free => self.free,
            Field::Available => self.available,
            Field::Buffers => self.buffers,
            Field::Cached => self.cached,
            Field::SwapCached => self.swap_cached,
            Field::Active => self.active,
            Field::Inactive => self.inactive,
            Field::HighTotal => self.high_total,
            Field::HighFree => self.high_free,
            Field::LowTotal => self.low_total,
            Field::LowFree => self.low_free,
            Field::SwapTotal => self.swap_total,
            Field::SwapFree => self.swap_free,
        }
    }

    /// Stores `v` into one counter, leaving the others as they were.
    pub fn set(&mut self, f: Field, v: usize)
        ensures
            *final(self) == old(self).with(f, v),
    {
        match f {
            Field::Total => self.total = v,
            Field::Free => self.free = v,
            Field::Available => self.available = v,
            Field::Buffers => self.buffers = v,
            Field::Cached => self.cached = v,
            Field::SwapCached => self.swap_cached = v,
            Field::Active => self.active = v,
            Field::Inactive => self.inactive = v,
            Field::HighTotal => self.high_total = v,
            Field::HighFree => self.high_free = v,
            Field::LowTotal => self.low_total = v,
            Field::LowFree => self.low_free = v,
            Field::SwapTotal => self.swap_total = v,
            Field::SwapFree => self.swap_free = v,
        }
    }
}

impl Default for MemInfo {
    fn default() -> (r: MemInfo)
        ensures
            r == MemInfo::spec_zero(),
    {
        MemInfo::zero()
    }
}

} // verus!
