//! [`SampleFlagFields`], the `sample_flags` of a sample laid out as the sample tables state them, ISO/IEC 14496-12 §8.8.3.1

use vstd::prelude::*;

verus! {

/// The fields of a `sample_flags`, each as the sample tables state it
///
/// From the top: four reserved bits, `is_leading`, `sample_depends_on`,
/// `sample_is_depended_on` and `sample_has_redundancy` in two bits each,
/// `sample_padding_value` in three, `sample_is_non_sync_sample` in one, and
/// `sample_degradation_priority` in the low sixteen.
#[derive(Clone, Copy, PartialEq, Eq, Debug, Structural)]
pub struct SampleFlagFields {
    pub is_leading: u8,
    pub sample_depends_on: u8,
    pub sample_is_depended_on: u8,
    pub sample_has_redundancy: u8,
    pub padding: u8,
    pub is_non_sync_sample: bool,
    pub degradation_priority: u16,
}

impl SampleFlagFields {
    /// Every field fits the bits it is laid out in
    pub open spec fn wf(self) -> bool {
        &&& self.is_leading <= 3
        &&& self.sample_depends_on <= 3
        &&& self.sample_is_depended_on <= 3
        &&& self.sample_has_redundancy <= 3
        &&& self.padding <= 7
    }

    /// The `sample_flags` the fields are laid out as
    pub open spec fn spec_to_sample_flags(self) -> u32 {
        ((self.is_leading as u32) << 26u32) | ((self.sample_depends_on as u32) << 24u32)
            | ((self.sample_is_depended_on as u32) << 22u32) | ((self.sample_has_redundancy as u32) << 20u32)
            | ((self.padding as u32) << 17u32) | ((if self.is_non_sync_sample { 1u32 } else { 0u32 }) << 16u32)
            | (self.degradation_priority as u32)
    }

    /// The fields a `sample_flags` splits into, none where it sets a reserved bit
    pub open spec fn spec_from_sample_flags(flags: u32) -> Option<Self> {
        if flags >> 28u32 != 0 {
            None
        } else {
            Some(
                SampleFlagFields {
                    is_leading: ((flags >> 26u32) & 3) as u8,
                    sample_depends_on: ((flags >> 24u32) & 3) as u8,
                    sample_is_depended_on: ((flags >> 22u32) & 3) as u8,
                    sample_has_redundancy: ((flags >> 20u32) & 3) as u8,
                    padding: ((flags >> 17u32) & 7) as u8,
                    is_non_sync_sample: (flags >> 16u32) & 1 == 1,
                    degradation_priority: (flags & 0xffff) as u16,
                },
            )
        }
    }

    /// Splits `sample_flags` into its fields, or returns `None` where it sets a reserved bit
    pub fn from_sample_flags(flags: u32) -> (fields: Option<Self>)
        ensures
            fields == Self::spec_from_sample_flags(flags),
            fields matches Some(f) ==> f.wf(),
    {
        if flags >> 28u32 != 0 {
            return None;
        }
        let fields = SampleFlagFields {
            is_leading: ((flags >> 26u32) & 3) as u8,
            sample_depends_on: ((flags >> 24u32) & 3) as u8,
            sample_is_depended_on: ((flags >> 22u32) & 3) as u8,
            sample_has_redundancy: ((flags >> 20u32) & 3) as u8,
            padding: ((flags >> 17u32) & 7) as u8,
            is_non_sync_sample: (flags >> 16u32) & 1 == 1,
            degradation_priority: (flags & 0xffff) as u16,
        };
        assert((flags >> 26u32) & 3 <= 3 && (flags >> 24u32) & 3 <= 3 && (flags >> 22u32) & 3 <= 3
            && (flags >> 20u32) & 3 <= 3 && (flags >> 17u32) & 7 <= 7) by (bit_vector);
        Some(fields)
    }

    /// Lays the fields out as a `sample_flags`
    pub fn to_sample_flags(self) -> (flags: u32)
        ensures
            flags == self.spec_to_sample_flags(),
    {
        let non_sync: u32 = if self.is_non_sync_sample { 1 } else { 0 };
        ((self.is_leading as u32) << 26u32) | ((self.sample_depends_on as u32) << 24u32)
            | ((self.sample_is_depended_on as u32) << 22u32) | ((self.sample_has_redundancy as u32) << 20u32)
            | ((self.padding as u32) << 17u32) | (non_sync << 16u32) | (self.degradation_priority as u32)
    }
}

/// A `sample_flags` setting no reserved bit splits into fields that lay out as it again
pub proof fn lemma_flags_split_and_joined(flags: u32)
    requires
        flags >> 28u32 == 0,
    ensures
        SampleFlagFields::spec_from_sample_flags(flags) matches Some(f) && f.spec_to_sample_flags() == flags,
{
    let a = (flags >> 26u32) & 3;
    let b = (flags >> 24u32) & 3;
    let c = (flags >> 22u32) & 3;
    let d = (flags >> 20u32) & 3;
    let e = (flags >> 17u32) & 7;
    let g = (flags >> 16u32) & 1;
    let h = flags & 0xffff;
    assert((a << 26u32) | (b << 24u32) | (c << 22u32) | (d << 20u32) | (e << 17u32) | (g << 16u32) | h == flags)
        by (bit_vector)
        requires
            flags >> 28u32 == 0,
            a == (flags >> 26u32) & 3,
            b == (flags >> 24u32) & 3,
            c == (flags >> 22u32) & 3,
            d == (flags >> 20u32) & 3,
            e == (flags >> 17u32) & 7,
            g == (flags >> 16u32) & 1,
            h == flags & 0xffff,
    ;
    assert(a <= 3 && b <= 3 && c <= 3 && d <= 3 && e <= 7 && g <= 1 && h <= 0xffff) by (bit_vector)
        requires
            a == (flags >> 26u32) & 3,
            b == (flags >> 24u32) & 3,
            c == (flags >> 22u32) & 3,
            d == (flags >> 20u32) & 3,
            e == (flags >> 17u32) & 7,
            g == (flags >> 16u32) & 1,
            h == flags & 0xffff,
    ;
    let f = SampleFlagFields::spec_from_sample_flags(flags)->Some_0;
    assert(f.is_leading as u32 == a);
    assert(f.sample_depends_on as u32 == b);
    assert(f.sample_is_depended_on as u32 == c);
    assert(f.sample_has_redundancy as u32 == d);
    assert(f.padding as u32 == e);
    assert((if f.is_non_sync_sample { 1u32 } else { 0u32 }) == g);
    assert(f.degradation_priority as u32 == h);
}

/// Fields within their bits lay out as a `sample_flags` that splits back into them
pub proof fn lemma_flags_joined_and_split(f: SampleFlagFields)
    requires
        f.wf(),
    ensures
        SampleFlagFields::spec_from_sample_flags(f.spec_to_sample_flags()) == Some(f),
{
    let a = f.is_leading as u32;
    let b = f.sample_depends_on as u32;
    let c = f.sample_is_depended_on as u32;
    let d = f.sample_has_redundancy as u32;
    let e = f.padding as u32;
    let g: u32 = if f.is_non_sync_sample { 1 } else { 0 };
    let h = f.degradation_priority as u32;
    let flags = f.spec_to_sample_flags();
    assert(flags == (a << 26u32) | (b << 24u32) | (c << 22u32) | (d << 20u32) | (e << 17u32) | (g << 16u32) | h);
    assert({
        let x = (a << 26u32) | (b << 24u32) | (c << 22u32) | (d << 20u32) | (e << 17u32) | (g << 16u32) | h;
        &&& x >> 28u32 == 0
        &&& (x >> 26u32) & 3 == a
        &&& (x >> 24u32) & 3 == b
        &&& (x >> 22u32) & 3 == c
        &&& (x >> 20u32) & 3 == d
        &&& (x >> 17u32) & 7 == e
        &&& (x >> 16u32) & 1 == g
        &&& x & 0xffff == h
    }) by (bit_vector)
        requires
            a <= 3,
            b <= 3,
            c <= 3,
            d <= 3,
            e <= 7,
            g <= 1,
            h <= 0xffff,
    ;
}

} // verus!
