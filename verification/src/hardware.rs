use vstd::prelude::*;

verus! {

/// Physical capabilities of one audio output device.
#[derive(Debug, Clone)]
pub struct AudioDeviceDescriptor {
    pub id: String,
    pub name: String,
    pub is_default: bool,
    pub supported_sample_rates: Vec<u32>,
    pub min_channels: u16,
    pub max_channels: u16,
    pub supports_f32: bool,
    pub supports_i16: bool,
}

/// How a track is to be played on a device.
#[derive(Debug, Clone, PartialEq, Eq, Structural)]
pub enum PlaybackStrategy {
    /// The device runs the source's sample rate and channel count natively.
    BitPerfect { sample_rate: u32, channels: u16 },
    /// The device cannot run the source's sample rate, so the audio is resampled.
    ResampleRequired { source_sample_rate: u32, target_sample_rate: u32, channels: u16 },
}

/// Sample encodings a device may accept.
#[derive(Debug, Clone, Copy, PartialEq, Eq, Structural)]
pub enum SampleKind {
    F32,
    I16,
    Other,
}

/// One supported output configuration range of a device: a channel count, a range of
/// sample rates and a sample encoding.
#[derive(Debug, Clone, Copy, PartialEq, Eq, Structural)]
pub struct OutputConfigRange {
    pub channels: u16,
    pub min_sample_rate: u32,
    pub max_sample_rate: u32,
    pub sample_kind: SampleKind,
}

/// A range runs `rate` with `channels` channels.
pub open spec fn runs_natively(c: OutputConfigRange, rate: u32, channels: u16) -> bool {
    c.channels == channels && c.min_sample_rate <= rate && rate <= c.max_sample_rate
}

/// The rates a device names for a channel count: the bounds of each of its ranges with that
/// channel count.
pub open spec fn candidate_rate(configs: Seq<OutputConfigRange>, channels: u16, r: u32) -> bool {
    exists|i: int|
        0 <= i < configs.len() && configs[i].channels == channels && (configs[i].min_sample_rate == r
            || configs[i].max_sample_rate == r)
}

/// Two rates belong to the same family: both are multiples of 44.1 kHz, or neither is.
pub open spec fn same_family(a: u32, b: u32) -> bool {
    (a % 44100 == 0) == (b % 44100 == 0)
}

/// `r` is a rate that can carry the source: named by the device, at least the source rate,
/// and of the source rate's family.
pub open spec fn upward_candidate(configs: Seq<OutputConfigRange>, src: u32, channels: u16, r: u32) -> bool {
    candidate_rate(configs, channels, r) && r >= src && same_family(r, src)
}

/// The rate that playback is resampled to: the smallest rate the device names that is at
/// least the source rate and of its family; failing that, the largest rate the device
/// names; failing that, 48 kHz.
pub open spec fn is_target_rate(configs: Seq<OutputConfigRange>, src: u32, channels: u16, t: u32) -> bool {
    if exists|r: u32| #[trigger] upward_candidate(configs, src, channels, r) {
        upward_candidate(configs, src, channels, t) && forall|r: u32|
            #[trigger] upward_candidate(configs, src, channels, r) ==> t <= r
    } else if exists|r: u32| #[trigger] candidate_rate(configs, channels, r) {
        candidate_rate(configs, channels, t) && forall|r: u32| #[trigger] candidate_rate(configs, channels, r) ==> r <= t
    } else {
        t == 48000
    }
}

/// Chooses how to play a source of `source_sample_rate` and `source_channels` on a device
/// with the given configuration ranges: bit-perfect when a range with the same channel count
/// covers the source rate, resampling to the target rate of [`is_target_rate`] otherwise.
pub fn negotiate_strategy(
    configs: &[OutputConfigRange],
    source_sample_rate: u32,
    source_channels: u16,
) -> (r: PlaybackStrategy)
    ensures
        (exists|i: int| 0 <= i < configs@.len() && runs_natively(#[trigger] configs@[i], source_sample_rate, source_channels))
            ==> r == (PlaybackStrategy::BitPerfect { sample_rate: source_sample_rate, channels: source_channels }),
        !(exists|i: int| 0 <= i < configs@.len() && runs_natively(#[trigger] configs@[i], source_sample_rate, source_channels))
            ==> (r matches PlaybackStrategy::ResampleRequired { source_sample_rate: s, target_sample_rate: t, channels: c }
                && s == source_sample_rate && c == source_channels && is_target_rate(configs@, source_sample_rate, source_channels, t)),
{
    let mut i: usize = 0;
    while i < configs.len()
        invariant
            i <= configs@.len(),
            forall|j: int| 0 <= j < i ==> !runs_natively(#[trigger] configs@[j], source_sample_rate, source_channels),
        decreases configs@.len() - i,
    {
        let c = configs[i];
        if c.channels == source_channels && source_sample_rate >= c.min_sample_rate
            && source_sample_rate <= c.max_sample_rate {
            return PlaybackStrategy::BitPerfect { sample_rate: source_sample_rate, channels: source_channels };
        }
        i = i + 1;
    }

    let is_44_family = source_sample_rate % 44100 == 0;
    let mut best: Option<u32> = None;
    let mut largest: Option<u32> = None;
    let mut k: usize = 0;
    while k < configs.len()
        invariant
            k <= configs@.len(),
            is_44_family == (source_sample_rate % 44100 == 0),
            match best {
                Some(b) => upward_candidate(configs@, source_sample_rate, source_channels, b)
                    && forall|r: u32| #[trigger] upward_candidate(configs@.subrange(0, k as int), source_sample_rate, source_channels, r) ==> b <= r,
                None => forall|r: u32| !#[trigger] upward_candidate(configs@.subrange(0, k as int), source_sample_rate, source_channels, r),
            },
            match largest {
                Some(l) => candidate_rate(configs@, source_channels, l)
                    && forall|r: u32| #[trigger] candidate_rate(configs@.subrange(0, k as int), source_channels, r) ==> r <= l,
                None => forall|r: u32| !#[trigger] candidate_rate(configs@.subrange(0, k as int), source_channels, r),
            },
        decreases configs@.len() - k,
    {
        let c = configs[k];
        proof {
            assert forall|r: u32| #[trigger] candidate_rate(configs@.subrange(0, k + 1), source_channels, r)
                <==> candidate_rate(configs@.subrange(0, k as int), source_channels, r)
                    || (c.channels == source_channels && (c.min_sample_rate == r || c.max_sample_rate == r)) by {
                let s1 = configs@.subrange(0, k + 1);
                let s0 = configs@.subrange(0, k as int);
                if candidate_rate(s1, source_channels, r) {
                    let j = choose|j: int| 0 <= j < s1.len() && s1[j].channels == source_channels && (s1[j].min_sample_rate == r || s1[j].max_sample_rate == r);
                    if j < k {
                        assert(s0[j] == s1[j]);
                    }
                }
                if candidate_rate(s0, source_channels, r) {
                    let j = choose|j: int| 0 <= j < s0.len() && s0[j].channels == source_channels && (s0[j].min_sample_rate == r || s0[j].max_sample_rate == r);
                    assert(s1[j] == s0[j]);
                }
                if c.channels == source_channels && (c.min_sample_rate == r || c.max_sample_rate == r) {
                    assert(s1[k as int] == c);
                }
            }
            assert(configs@[k as int] == c);
            assert forall|r: u32| #[trigger] upward_candidate(configs@.subrange(0, k + 1), source_sample_rate, source_channels, r)
                <==> upward_candidate(configs@.subrange(0, k as int), source_sample_rate, source_channels, r)
                    || (c.channels == source_channels && (c.min_sample_rate == r || c.max_sample_rate == r) && r >= source_sample_rate && same_family(r, source_sample_rate)) by {
                assert(candidate_rate(configs@.subrange(0, k + 1), source_channels, r)
                    <==> candidate_rate(configs@.subrange(0, k as int), source_channels, r)
                    || (c.channels == source_channels && (c.min_sample_rate == r || c.max_sample_rate == r)));
            }
        }
        if c.channels == source_channels {
            let lo = c.min_sample_rate;
            let hi = c.max_sample_rate;
            proof {
                assert(candidate_rate(configs@, source_channels, lo));
                assert(candidate_rate(configs@, source_channels, hi));
            }
            if lo >= source_sample_rate && (lo % 44100 == 0) == is_44_family {
                match best {
                    Some(b) => if lo < b {
                        best = Some(lo);
                    },
                    None => {
                        best = Some(lo);
                    },
                }
            }
            if hi >= source_sample_rate && (hi % 44100 == 0) == is_44_family {
                match best {
                    Some(b) => if hi < b {
                        best = Some(hi);
                    },
                    None => {
                        best = Some(hi);
                    },
                }
            }
            match largest {
                Some(l) => if hi > l {
                    largest = Some(hi);
                },
                None => {
                    largest = Some(hi);
                },
            }
            match largest {
                Some(l) => if lo > l {
                    largest = Some(lo);
                },
                None => {
                    largest = Some(lo);
                },
            }
        }
        k = k + 1;
    }
    proof {
        assert(configs@.subrange(0, k as int) =~= configs@);
    }
    let target = match best {
        Some(b) => b,
        None => match largest {
            Some(l) => l,
            None => 48000,
        },
    };
    PlaybackStrategy::ResampleRequired {
        source_sample_rate,
        target_sample_rate: target,
        channels: source_channels,
    }
}


/// The standard sample rates a device is checked for, in increasing order.
pub open spec fn standard_rates() -> Seq<u32> {
    seq![44100u32, 48000u32, 88200u32, 96000u32, 176400u32, 192000u32, 352800u32, 384000u32, 768000u32]
}

/// Some range of the device covers `rate`.
pub open spec fn covers_rate(configs: Seq<OutputConfigRange>, rate: u32) -> bool {
    exists|i: int| 0 <= i < configs.len() && configs[i].min_sample_rate <= rate && rate <= #[trigger] configs[i].max_sample_rate
}

/// The standard rates covered by some range, in increasing order.
pub open spec fn covered_standard_rates(configs: Seq<OutputConfigRange>, upto: nat) -> Seq<u32>
    decreases upto,
{
    if upto == 0 {
        Seq::empty()
    } else {
        let p = covered_standard_rates(configs, (upto - 1) as nat);
        let r = standard_rates()[upto - 1];
        if covers_rate(configs, r) {
            p.push(r)
        } else {
            p
        }
    }
}

/// The smallest channel count of the ranges, starting from `u16::MAX`.
pub open spec fn min_channels_of(configs: Seq<OutputConfigRange>) -> u16
    decreases configs.len(),
{
    if configs.len() == 0 {
        u16::MAX
    } else {
        let m = min_channels_of(configs.drop_last());
        if configs.last().channels < m {
            configs.last().channels
        } else {
            m
        }
    }
}

/// The largest channel count of the ranges, starting from 0.
pub open spec fn max_channels_of(configs: Seq<OutputConfigRange>) -> u16
    decreases configs.len(),
{
    if configs.len() == 0 {
        0
    } else {
        let m = max_channels_of(configs.drop_last());
        if configs.last().channels > m {
            configs.last().channels
        } else {
            m
        }
    }
}

/// Some range uses the sample encoding `kind`.
pub open spec fn has_kind(configs: Seq<OutputConfigRange>, kind: SampleKind) -> bool {
    exists|i: int| 0 <= i < configs.len() && #[trigger] configs[i].sample_kind == kind
}

/// Whether some range covers `rate`.
fn any_covers(configs: &[OutputConfigRange], rate: u32) -> (r: bool)
    ensures
        r == covers_rate(configs@, rate),
{
    let mut i: usize = 0;
    while i < configs.len()
        invariant
            i <= configs@.len(),
            forall|j: int| 0 <= j < i ==> !(configs@[j].min_sample_rate <= rate && rate <= #[trigger] configs@[j].max_sample_rate),
        decreases configs@.len() - i,
    {
        if configs[i].min_sample_rate <= rate && rate <= configs[i].max_sample_rate {
            return true;
        }
        i = i + 1;
    }
    false
}

/// Describes the device called `name` from its configuration ranges: the standard rates
/// some range covers (in increasing order), the smallest and largest channel counts (0 when
/// there is no range, and the smallest also 0 when it is `u16::MAX`), and whether some range
/// takes 32-bit float or 16-bit integer samples.  The device is the default one when its
/// name is the default device's name.
pub fn describe_device(name: String, default_name: Option<&str>, configs: &[OutputConfigRange]) -> (r: AudioDeviceDescriptor)
    ensures
        r.id@ == name@,
        r.name == name,
        r.is_default == (default_name matches Some(d) && d@ == name@),
        r.supported_sample_rates@ == covered_standard_rates(configs@, 9),
        r.min_channels == (if min_channels_of(configs@) == u16::MAX { 0 } else { min_channels_of(configs@) }),
        r.max_channels == max_channels_of(configs@),
        r.supports_f32 == has_kind(configs@, SampleKind::F32),
        r.supports_i16 == has_kind(configs@, SampleKind::I16),
{
    let mut min_channels: u16 = u16::MAX;
    let mut max_channels: u16 = 0;
    let mut supports_f32 = false;
    let mut supports_i16 = false;
    let mut i: usize = 0;
    while i < configs.len()
        invariant
            i <= configs@.len(),
            min_channels == min_channels_of(configs@.subrange(0, i as int)),
            max_channels == max_channels_of(configs@.subrange(0, i as int)),
            supports_f32 == has_kind(configs@.subrange(0, i as int), SampleKind::F32),
            supports_i16 == has_kind(configs@.subrange(0, i as int), SampleKind::I16),
        decreases configs@.len() - i,
    {
        let c = configs[i];
        proof {
            let s1 = configs@.subrange(0, i + 1);
            let s0 = configs@.subrange(0, i as int);
            assert(s1.drop_last() =~= s0);
            assert(s1.last() == c);
            assert forall|kind: SampleKind| has_kind(s1, kind) <==> has_kind(s0, kind) || c.sample_kind == kind by {
                if has_kind(s1, kind) {
                    let j = choose|j: int| 0 <= j < s1.len() && #[trigger] s1[j].sample_kind == kind;
                    if j < i {
                        assert(s0[j] == s1[j]);
                    }
                }
                if has_kind(s0, kind) {
                    let j = choose|j: int| 0 <= j < s0.len() && #[trigger] s0[j].sample_kind == kind;
                    assert(s1[j] == s0[j]);
                }
                if c.sample_kind == kind {
                    assert(s1[i as int].sample_kind == kind);
                }
            }
        }
        if c.channels < min_channels {
            min_channels = c.channels;
        }
        if c.channels > max_channels {
            max_channels = c.channels;
        }
        match c.sample_kind {
            SampleKind::F32 => {
                supports_f32 = true;
            },
            SampleKind::I16 => {
                supports_i16 = true;
            },
            SampleKind::Other => {},
        }
        i = i + 1;
    }
    proof {
        assert(configs@.subrange(0, i as int) =~= configs@);
    }

    let standard: [u32; 9] = [44100, 48000, 88200, 96000, 176400, 192000, 352800, 384000, 768000];
    let mut rates: Vec<u32> = Vec::new();
    let mut k: usize = 0;
    while k < 9
        invariant
            k <= 9,
            standard@ == standard_rates(),
            rates@ == covered_standard_rates(configs@, k as nat),
        decreases 9 - k,
    {
        if any_covers(configs, standard[k]) {
            rates.push(standard[k]);
        }
        k = k + 1;
    }

    if min_channels == u16::MAX {
        min_channels = 0;
    }
    let is_default = match default_name {
        Some(d) => crate::text::text_eq(d, name.as_str()),
        None => false,
    };
    AudioDeviceDescriptor {
        id: name.clone(),
        name,
        is_default,
        supported_sample_rates: rates,
        min_channels,
        max_channels,
        supports_f32,
        supports_i16,
    }
}

} // verus!
