//! How the media targets follow the measured state of the path.
use vstd::arithmetic::power2::{
    lemma_pow2_adds, lemma_pow2_pos, lemma_pow2_strictly_increases, lemma_pow2_unfold, pow2,
};
use vstd::prelude::*;

verus! {

/// A measured value: an IEEE 754 single-precision number, by its bit pattern.
#[derive(Clone, Copy, Debug, Eq, PartialEq, Structural)]
pub struct Single {
    pub bits: u32,
}

impl Single {
    /// Whether the pattern stands for no number.
    pub open spec fn is_nan(self) -> bool {
        self.bits % 0x8000_0000 > 0x7f80_0000
    }

    /// An integer by which patterns that stand for numbers are ordered as the numbers are:
    /// the pattern without its sign bit, with the sign. Both zeros come to the same.
    pub open spec fn rank(self) -> int {
        if self.bits < 0x8000_0000 {
            self.bits as int
        } else {
            0x8000_0000 - self.bits
        }
    }

    /// Whether this number is at least the other. No number is on either side of a NaN.
    pub open spec fn at_least_spec(self, other: Single) -> bool {
        !self.is_nan() && !other.is_nan() && self.rank() >= other.rank()
    }

    /// Whether this number is less than the other. No number is on either side of a NaN.
    pub open spec fn less_than_spec(self, other: Single) -> bool {
        !self.is_nan() && !other.is_nan() && self.rank() < other.rank()
    }

    fn is_number(self) -> (number: bool)
        ensures
            number == !self.is_nan(),
    {
        self.bits % 0x8000_0000 <= 0x7f80_0000
    }

    fn order(self) -> (rank: i64)
        ensures
            rank == self.rank(),
    {
        if self.bits < 0x8000_0000 {
            self.bits as i64
        } else {
            0x8000_0000 - self.bits as i64
        }
    }

    /// Whether this number is at least the other.
    pub fn at_least(self, other: Single) -> (result: bool)
        ensures
            result == self.at_least_spec(other),
    {
        self.is_number() && other.is_number() && self.order() >= other.order()
    }

    /// Whether this number is less than the other.
    pub fn less_than(self, other: Single) -> (result: bool)
        ensures
            result == self.less_than_spec(other),
    {
        self.is_number() && other.is_number() && self.order() < other.order()
    }
}

/// The bit pattern of 3.0.
pub const THREE: u32 = 0x4040_0000;

/// The bit pattern of 5.0.
pub const FIVE: u32 = 0x40a0_0000;

/// The bit pattern of 8.0.
pub const EIGHT: u32 = 0x4100_0000;

/// The bit pattern of 10.0.
pub const TEN: u32 = 0x4120_0000;

/// The bit pattern of 80.0.
pub const EIGHTY: u32 = 0x42a0_0000;

/// The bit pattern of 92.0.
pub const NINETY_TWO: u32 = 0x42b8_0000;

/// The bit pattern of 120.0.
pub const ONE_HUNDRED_TWENTY: u32 = 0x42f0_0000;

/// The bit pattern of 200.0.
pub const TWO_HUNDRED: u32 = 0x4348_0000;

/// From how many queued bytes on the send queue counts as long.
pub const LONG_SEND_QUEUE_BYTES: u64 = 0x20_0000;

#[derive(Clone, Copy, Debug, Eq, PartialEq, Structural)]
pub struct AdaptationMetrics {
    pub quic_rtt_ms: Single,
    pub packet_loss_percent: Single,
    pub datagram_drop_percent: Single,
    pub frame_completion_percent: Single,
    pub decoder_queue_depth: u32,
    pub input_latency_ms: Single,
    pub send_queue_bytes: u64,
    pub estimated_bandwidth_kbps: u32,
}

impl Default for AdaptationMetrics {
    fn default() -> (metrics: AdaptationMetrics)
        ensures
            metrics == (AdaptationMetrics {
                quic_rtt_ms: Single { bits: 0 },
                packet_loss_percent: Single { bits: 0 },
                datagram_drop_percent: Single { bits: 0 },
                frame_completion_percent: Single { bits: 0 },
                decoder_queue_depth: 0,
                input_latency_ms: Single { bits: 0 },
                send_queue_bytes: 0,
                estimated_bandwidth_kbps: 0,
            }),
    {
        AdaptationMetrics {
            quic_rtt_ms: Single { bits: 0 },
            packet_loss_percent: Single { bits: 0 },
            datagram_drop_percent: Single { bits: 0 },
            frame_completion_percent: Single { bits: 0 },
            decoder_queue_depth: 0,
            input_latency_ms: Single { bits: 0 },
            send_queue_bytes: 0,
            estimated_bandwidth_kbps: 0,
        }
    }
}

#[derive(Clone, Copy, Debug, Eq, PartialEq, Structural)]
pub struct MediaTarget {
    pub video_bitrate_kbps: u32,
    pub max_fps: u16,
    pub resolution_scale_percent: u8,
    pub keyframe_interval_frames: u16,
    pub audio_bitrate_kbps: u16,
    pub file_bitrate_kbps: u32,
}

#[derive(Clone, Copy, Debug, Eq, PartialEq, Structural)]
pub struct AdaptationLimits {
    pub minimum_video_bitrate_kbps: u32,
    pub maximum_video_bitrate_kbps: u32,
    pub maximum_fps: u16,
    pub maximum_audio_bitrate_kbps: u16,
    pub maximum_file_bitrate_kbps: u32,
}

#[derive(Clone, Copy, Debug, Eq, PartialEq, Structural)]
pub enum AdaptationError {
    InvalidLimits,
}

/// How bad the state of the path is.
#[derive(Clone, Copy, Debug, Eq, PartialEq, Structural)]
pub enum PathState {
    Healthy,
    Constrained,
    Severe,
}

impl AdaptationMetrics {
    pub open spec fn is_severe(self) -> bool {
        self.packet_loss_percent.at_least_spec(Single { bits: EIGHT })
            || self.datagram_drop_percent.at_least_spec(Single { bits: TEN })
            || self.frame_completion_percent.less_than_spec(Single { bits: EIGHTY })
            || self.decoder_queue_depth >= 6 || self.quic_rtt_ms.at_least_spec(
            Single { bits: TWO_HUNDRED },
        )
    }

    pub open spec fn is_constrained(self) -> bool {
        self.is_severe() || self.packet_loss_percent.at_least_spec(Single { bits: THREE })
            || self.datagram_drop_percent.at_least_spec(Single { bits: FIVE })
            || self.frame_completion_percent.less_than_spec(Single { bits: NINETY_TWO })
            || self.decoder_queue_depth >= 3 || self.input_latency_ms.at_least_spec(
            Single { bits: ONE_HUNDRED_TWENTY },
        ) || self.send_queue_bytes >= LONG_SEND_QUEUE_BYTES
    }

    /// The state of the path that the metrics show.
    pub open spec fn state(self) -> PathState {
        if self.is_severe() {
            PathState::Severe
        } else if self.is_constrained() {
            PathState::Constrained
        } else {
            PathState::Healthy
        }
    }

    fn path_state(&self) -> (state: PathState)
        ensures
            state == self.state(),
    {
        if self.packet_loss_percent.at_least(Single { bits: EIGHT })
            || self.datagram_drop_percent.at_least(Single { bits: TEN })
            || self.frame_completion_percent.less_than(Single { bits: EIGHTY })
            || self.decoder_queue_depth >= 6 || self.quic_rtt_ms.at_least(
            Single { bits: TWO_HUNDRED },
        ) {
            return PathState::Severe;
        }
        if self.packet_loss_percent.at_least(Single { bits: THREE })
            || self.datagram_drop_percent.at_least(Single { bits: FIVE })
            || self.frame_completion_percent.less_than(Single { bits: NINETY_TWO })
            || self.decoder_queue_depth >= 3 || self.input_latency_ms.at_least(
            Single { bits: ONE_HUNDRED_TWENTY },
        ) || self.send_queue_bytes >= LONG_SEND_QUEUE_BYTES {
            return PathState::Constrained;
        }
        PathState::Healthy
    }
}

/// So many percent of a number, where the product is cut off at the largest 32-bit number.
pub open spec fn percent_of(value: u32, percent: u32) -> u32 {
    if value * percent > u32::MAX {
        (u32::MAX / 100) as u32
    } else {
        ((value * percent) / 100) as u32
    }
}

fn take_percent(value: u32, percent: u32) -> (result: u32)
    ensures
        result == percent_of(value, percent),
{
    match value.checked_mul(percent) {
        Some(product) => product / 100,
        None => u32::MAX / 100,
    }
}

/// The lesser of two numbers.
pub open spec fn lesser(first: int, second: int) -> int {
    if first < second {
        first
    } else {
        second
    }
}

/// The number in a range that lies nearest to the given one.
pub open spec fn clamped(value: int, low: int, high: int) -> int {
    if value < low {
        low
    } else if value > high {
        high
    } else {
        value
    }
}

/// What a target's video bitrate becomes before it is held against budget and limits: it
/// falls by a share where the path is worse than healthy, and grows by a twentieth, at
/// least by 100, where it is healthy.
pub open spec fn moved_bitrate(current: u32, state: PathState) -> int {
    match state {
        PathState::Severe => percent_of(current, 65) as int,
        PathState::Constrained => percent_of(current, 82) as int,
        PathState::Healthy => lesser(
            u32::MAX as int,
            current + if current / 20 > 100 {
                (current / 20) as int
            } else {
                100
            },
        ),
    }
}

/// The share of the measured bandwidth that video may take.
pub open spec fn video_budget(bandwidth_kbps: u32, state: PathState) -> u32 {
    percent_of(
        bandwidth_kbps,
        if state is Healthy {
            80
        } else {
            65
        },
    )
}

impl AdaptationLimits {
    pub open spec fn are_valid(self) -> bool {
        self.minimum_video_bitrate_kbps != 0 && self.maximum_video_bitrate_kbps
            >= self.minimum_video_bitrate_kbps && self.maximum_fps != 0
            && self.maximum_audio_bitrate_kbps != 0
    }

    /// The target before anything is measured.
    pub open spec fn first_target(self) -> MediaTarget {
        MediaTarget {
            video_bitrate_kbps: self.maximum_video_bitrate_kbps,
            max_fps: self.maximum_fps,
            resolution_scale_percent: 100,
            keyframe_interval_frames: two_seconds(self.maximum_fps),
            audio_bitrate_kbps: self.maximum_audio_bitrate_kbps,
            file_bitrate_kbps: self.maximum_file_bitrate_kbps,
        }
    }

    /// The frame rate in a state of the path.
    pub open spec fn fps(self, state: PathState) -> u16 {
        match state {
            PathState::Severe => lesser(self.maximum_fps as int, 20) as u16,
            PathState::Constrained => lesser(self.maximum_fps as int, 30) as u16,
            PathState::Healthy => self.maximum_fps,
        }
    }

    /// The target that follows `target` once `metrics` were measured.
    pub open spec fn adapted(self, target: MediaTarget, metrics: AdaptationMetrics) -> MediaTarget {
        let state = metrics.state();
        let budget = video_budget(metrics.estimated_bandwidth_kbps, state);
        let moved = moved_bitrate(target.video_bitrate_kbps, state);
        MediaTarget {
            video_bitrate_kbps: clamped(
                if budget > 0 {
                    lesser(moved, budget as int)
                } else {
                    moved
                },
                self.minimum_video_bitrate_kbps as int,
                self.maximum_video_bitrate_kbps as int,
            ) as u32,
            max_fps: self.fps(state),
            resolution_scale_percent: match state {
                PathState::Severe => 50,
                PathState::Constrained => 75,
                PathState::Healthy => 100,
            },
            keyframe_interval_frames: if metrics.datagram_drop_percent.at_least_spec(
                Single { bits: FIVE },
            ) {
                if self.fps(state) > 1 {
                    self.fps(state)
                } else {
                    1
                }
            } else {
                two_seconds(self.fps(state))
            },
            audio_bitrate_kbps: if state is Severe {
                lesser(self.maximum_audio_bitrate_kbps as int, 48) as u16
            } else {
                self.maximum_audio_bitrate_kbps
            },
            file_bitrate_kbps: lesser(
                percent_of(
                    metrics.estimated_bandwidth_kbps,
                    if state is Healthy {
                        20
                    } else {
                        5
                    },
                ) as int,
                self.maximum_file_bitrate_kbps as int,
            ) as u32,
        }
    }
}

/// The frames of two seconds, at least one and at most the largest 16-bit number.
pub open spec fn two_seconds(fps: u16) -> u16 {
    if fps == 0 {
        1
    } else if fps * 2 > u16::MAX {
        u16::MAX
    } else {
        (fps * 2) as u16
    }
}

fn frames_of_two_seconds(fps: u16) -> (frames: u16)
    ensures
        frames == two_seconds(fps),
{
    if fps == 0 {
        1
    } else {
        match fps.checked_mul(2) {
            Some(frames) => frames,
            None => u16::MAX,
        }
    }
}

fn lesser_u16(first: u16, second: u16) -> (result: u16)
    ensures
        result == lesser(first as int, second as int),
{
    if first < second {
        first
    } else {
        second
    }
}

fn lesser_u32(first: u32, second: u32) -> (result: u32)
    ensures
        result == lesser(first as int, second as int),
{
    if first < second {
        first
    } else {
        second
    }
}

fn move_bitrate(current: u32, state: PathState) -> (moved: u32)
    ensures
        moved == moved_bitrate(current, state),
{
    match state {
        PathState::Severe => take_percent(current, 65),
        PathState::Constrained => take_percent(current, 82),
        PathState::Healthy => {
            let increase: u32 = if current / 20 > 100 {
                current / 20
            } else {
                100
            };
            match current.checked_add(increase) {
                Some(sum) => sum,
                None => u32::MAX,
            }
        },
    }
}

/// Adapts the media targets to the path, within fixed limits.
pub struct BandwidthAdapter {
    limits: AdaptationLimits,
    target: MediaTarget,
}

impl BandwidthAdapter {
    pub closed spec fn limits(&self) -> AdaptationLimits {
        self.limits
    }

    pub closed spec fn current(&self) -> MediaTarget {
        self.target
    }

    pub fn new(limits: AdaptationLimits) -> (result: Result<BandwidthAdapter, AdaptationError>)
        ensures
            if limits.are_valid() {
                result matches Ok(adapter) && adapter.limits() == limits && adapter.current()
                    == limits.first_target()
            } else {
                result == Err::<BandwidthAdapter, _>(AdaptationError::InvalidLimits)
            },
    {
        if limits.minimum_video_bitrate_kbps == 0 || limits.maximum_video_bitrate_kbps
            < limits.minimum_video_bitrate_kbps || limits.maximum_fps == 0
            || limits.maximum_audio_bitrate_kbps == 0 {
            return Err(AdaptationError::InvalidLimits);
        }
        Ok(
            BandwidthAdapter {
                target: MediaTarget {
                    video_bitrate_kbps: limits.maximum_video_bitrate_kbps,
                    max_fps: limits.maximum_fps,
                    resolution_scale_percent: 100,
                    keyframe_interval_frames: frames_of_two_seconds(limits.maximum_fps),
                    audio_bitrate_kbps: limits.maximum_audio_bitrate_kbps,
                    file_bitrate_kbps: limits.maximum_file_bitrate_kbps,
                },
                limits,
            },
        )
    }

    /// Moves the target one step after `metrics` were measured.
    pub fn update(&mut self, metrics: AdaptationMetrics) -> (target: MediaTarget)
        ensures
            final(self).limits() == old(self).limits(),
            final(self).current() == old(self).limits().adapted(old(self).current(), metrics),
            target == final(self).current(),
    {
        let state = metrics.path_state();
        let healthy = matches!(state, PathState::Healthy);
        let budget: u32 = take_percent(
            metrics.estimated_bandwidth_kbps,
            if healthy {
                80
            } else {
                65
            },
        );
        let mut video_bitrate: u32 = move_bitrate(self.target.video_bitrate_kbps, state);
        if budget > 0 {
            video_bitrate = lesser_u32(video_bitrate, budget);
        }
        self.target.video_bitrate_kbps = if video_bitrate < self.limits.minimum_video_bitrate_kbps {
            self.limits.minimum_video_bitrate_kbps
        } else if video_bitrate > self.limits.maximum_video_bitrate_kbps {
            self.limits.maximum_video_bitrate_kbps
        } else {
            video_bitrate
        };
        self.target.max_fps = match state {
            PathState::Severe => lesser_u16(self.limits.maximum_fps, 20),
            PathState::Constrained => lesser_u16(self.limits.maximum_fps, 30),
            PathState::Healthy => self.limits.maximum_fps,
        };
        self.target.resolution_scale_percent = match state {
            PathState::Severe => 50,
            PathState::Constrained => 75,
            PathState::Healthy => 100,
        };
        self.target.keyframe_interval_frames = if metrics.datagram_drop_percent.at_least(
            Single { bits: FIVE },
        ) {
            if self.target.max_fps > 1 {
                self.target.max_fps
            } else {
                1
            }
        } else {
            frames_of_two_seconds(self.target.max_fps)
        };
        self.target.audio_bitrate_kbps = match state {
            PathState::Severe => lesser_u16(self.limits.maximum_audio_bitrate_kbps, 48),
            _ => self.limits.maximum_audio_bitrate_kbps,
        };
        // File traffic remains a small, separately limited share of the measured path.
        self.target.file_bitrate_kbps = lesser_u32(
            take_percent(
                metrics.estimated_bandwidth_kbps,
                if healthy {
                    20
                } else {
                    5
                },
            ),
            self.limits.maximum_file_bitrate_kbps,
        );
        self.target
    }

    pub fn target(&self) -> (target: MediaTarget)
        ensures
            target == self.current(),
    {
        self.target
    }
}

/// Whatever is measured, a target stays within valid limits.
pub proof fn lemma_target_stays_within_limits(
    limits: AdaptationLimits,
    target: MediaTarget,
    metrics: AdaptationMetrics,
)
    requires
        limits.are_valid(),
    ensures
        ({
            let adapted = limits.adapted(target, metrics);
            &&& limits.minimum_video_bitrate_kbps <= adapted.video_bitrate_kbps
                <= limits.maximum_video_bitrate_kbps
            &&& 1 <= adapted.max_fps <= limits.maximum_fps
            &&& adapted.keyframe_interval_frames >= 1
            &&& adapted.audio_bitrate_kbps <= limits.maximum_audio_bitrate_kbps
            &&& adapted.file_bitrate_kbps <= limits.maximum_file_bitrate_kbps
        }),
{
}

/// A path that is worse than healthy never raises the video bitrate above what it was, or
/// above the minimum.
pub proof fn lemma_bad_path_never_raises_video(
    limits: AdaptationLimits,
    target: MediaTarget,
    metrics: AdaptationMetrics,
)
    requires
        limits.are_valid(),
        metrics.is_constrained(),
    ensures
        ({
            let adapted = limits.adapted(target, metrics);
            adapted.video_bitrate_kbps <= target.video_bitrate_kbps || adapted.video_bitrate_kbps
                == limits.minimum_video_bitrate_kbps
        }),
{
    let value = target.video_bitrate_kbps;
    assert(percent_of(value, 65) <= value && percent_of(value, 82) <= value) by {
        assert(value * 65 <= u32::MAX ==> (value * 65) / 100 <= value);
        assert(value * 82 <= u32::MAX ==> (value * 82) / 100 <= value);
        assert(value * 65 > u32::MAX ==> value >= u32::MAX / 100);
        assert(value * 82 > u32::MAX ==> value >= u32::MAX / 100);
    }
}

/// A healthy path raises the video bitrate by no more than a twentieth, or by 100.
pub proof fn lemma_recovery_is_gradual(
    limits: AdaptationLimits,
    target: MediaTarget,
    metrics: AdaptationMetrics,
)
    requires
        limits.are_valid(),
        limits.minimum_video_bitrate_kbps <= target.video_bitrate_kbps,
        !metrics.is_constrained(),
    ensures
        ({
            let adapted = limits.adapted(target, metrics);
            adapted.video_bitrate_kbps <= target.video_bitrate_kbps + target.video_bitrate_kbps / 20
                || adapted.video_bitrate_kbps <= target.video_bitrate_kbps + 100
        }),
{
}

impl Single {
    /// The magnitude of a number, in units of the smallest one above zero, which is two to the
    /// power of -149. Infinity comes after all others.
    pub open spec fn magnitude(self) -> nat {
        let digits = (self.bits % 0x80_0000) as nat;
        let exponent = ((self.bits / 0x80_0000) % 256) as nat;
        if exponent == 0 {
            digits
        } else {
            (0x80_0000 + digits) * pow2((exponent - 1) as nat)
        }
    }

    /// The number in those units.
    pub open spec fn value(self) -> int {
        if self.bits < 0x8000_0000 {
            self.magnitude() as int
        } else {
            -(self.magnitude() as int)
        }
    }

    /// Whether this is a number of at least `whole`.
    pub open spec fn reaches(self, whole: nat) -> bool {
        !self.is_nan() && self.value() >= whole * pow2(149)
    }

    /// Whether this is a number below `whole`.
    pub open spec fn is_below(self, whole: nat) -> bool {
        !self.is_nan() && self.value() < whole * pow2(149)
    }
}

proof fn lemma_magnitude_grows(first: Single, second: Single)
    requires
        first.bits < 0x8000_0000,
        second.bits < 0x8000_0000,
        first.bits < second.bits,
    ensures
        first.magnitude() < second.magnitude(),
{
    let digits_1 = (first.bits % 0x80_0000) as nat;
    let digits_2 = (second.bits % 0x80_0000) as nat;
    let exponent_1 = (first.bits / 0x80_0000) as nat;
    let exponent_2 = (second.bits / 0x80_0000) as nat;
    assert(exponent_1 <= exponent_2 < 256);
    if exponent_2 == 0 {
    } else if exponent_1 == 0 {
        lemma_pow2_pos((exponent_2 - 1) as nat);
        let power = pow2((exponent_2 - 1) as nat);
        assert((0x80_0000 + digits_2) * power >= 0x80_0000) by (nonlinear_arith)
            requires
                power >= 1,
                digits_2 >= 0,
        ;
    } else if exponent_1 == exponent_2 {
        lemma_pow2_pos((exponent_1 - 1) as nat);
        let power = pow2((exponent_1 - 1) as nat);
        assert((0x80_0000 + digits_1) * power < (0x80_0000 + digits_2) * power)
            by (nonlinear_arith)
            requires
                power >= 1,
                digits_1 < digits_2,
        ;
    } else {
        let low = pow2((exponent_1 - 1) as nat);
        let middle = pow2(exponent_1);
        let high = pow2((exponent_2 - 1) as nat);
        lemma_pow2_pos((exponent_1 - 1) as nat);
        lemma_pow2_unfold(exponent_1);
        if exponent_1 < exponent_2 - 1 {
            lemma_pow2_strictly_increases(exponent_1, (exponent_2 - 1) as nat);
        }
        assert((0x80_0000 + digits_1) * low < (0x80_0000 + digits_2) * high) by (nonlinear_arith)
            requires
                digits_1 < 0x80_0000,
                low >= 1,
                middle == 2 * low,
                middle <= high,
                digits_2 >= 0,
        ;
    }
}

/// Measured values are compared as the numbers that they stand for.
pub proof fn lemma_values_are_compared(first: Single, second: Single)
    requires
        !first.is_nan(),
        !second.is_nan(),
    ensures
        first.at_least_spec(second) <==> first.value() >= second.value(),
        first.less_than_spec(second) <==> first.value() < second.value(),
{
    let low = Single { bits: first.bits % 0x8000_0000 };
    let high = Single { bits: second.bits % 0x8000_0000 };
    lemma_sign_is_apart(first);
    lemma_sign_is_apart(second);
    if low.bits < high.bits {
        lemma_magnitude_grows(low, high);
    } else if high.bits < low.bits {
        lemma_magnitude_grows(high, low);
    }
    let zero = Single { bits: 0 };
    if low.bits > 0 {
        lemma_magnitude_grows(zero, low);
    }
    if high.bits > 0 {
        lemma_magnitude_grows(zero, high);
    }
}

proof fn lemma_sign_is_apart(single: Single)
    ensures
        single.magnitude() == (Single { bits: single.bits % 0x8000_0000 }).magnitude(),
{
    let bits = single.bits;
    assert(bits % 0x80_0000 == (bits % 0x8000_0000) % 0x80_0000);
    assert((bits / 0x80_0000) % 256 == ((bits % 0x8000_0000) / 0x80_0000) % 256);
}

proof fn lemma_whole_number(pattern: Single, digits: nat, shift: nat, whole: nat)
    requires
        shift <= 23,
        pattern.bits < 0x7f80_0000,
        pattern.bits >= 0x80_0000,
        pattern.bits % 0x80_0000 == digits,
        pattern.bits / 0x80_0000 == 127 + 23 - shift,
        0x80_0000 + digits == whole * pow2(shift),
    ensures
        pattern.value() == whole * pow2(149),
        !pattern.is_nan(),
{
    let rest = (149 - shift) as nat;
    lemma_pow2_adds(shift, rest);
    let left = pow2(shift);
    let right = pow2(rest);
    assert((whole * left) * right == whole * (left * right)) by (nonlinear_arith);
}

/// The measured values that the path is judged by, against the numbers that they stand for.
proof fn lemma_thresholds(single: Single)
    ensures
        single.at_least_spec(Single { bits: THREE }) <==> single.reaches(3),
        single.at_least_spec(Single { bits: FIVE }) <==> single.reaches(5),
        single.at_least_spec(Single { bits: EIGHT }) <==> single.reaches(8),
        single.at_least_spec(Single { bits: TEN }) <==> single.reaches(10),
        single.less_than_spec(Single { bits: EIGHTY }) <==> single.is_below(80),
        single.less_than_spec(Single { bits: NINETY_TWO }) <==> single.is_below(92),
        single.at_least_spec(Single { bits: ONE_HUNDRED_TWENTY }) <==> single.reaches(120),
        single.at_least_spec(Single { bits: TWO_HUNDRED }) <==> single.reaches(200),
{
    lemma_small_powers();
    lemma_whole_number(Single { bits: THREE }, 0x40_0000, 22, 3);
    lemma_whole_number(Single { bits: FIVE }, 0x20_0000, 21, 5);
    lemma_whole_number(Single { bits: EIGHT }, 0, 20, 8);
    lemma_whole_number(Single { bits: TEN }, 0x20_0000, 20, 10);
    lemma_whole_number(Single { bits: EIGHTY }, 0x20_0000, 17, 80);
    lemma_whole_number(Single { bits: NINETY_TWO }, 0x38_0000, 17, 92);
    lemma_whole_number(Single { bits: ONE_HUNDRED_TWENTY }, 0x70_0000, 17, 120);
    lemma_whole_number(Single { bits: TWO_HUNDRED }, 0x48_0000, 16, 200);
    if !single.is_nan() {
        lemma_values_are_compared(single, Single { bits: THREE });
        lemma_values_are_compared(single, Single { bits: FIVE });
        lemma_values_are_compared(single, Single { bits: EIGHT });
        lemma_values_are_compared(single, Single { bits: TEN });
        lemma_values_are_compared(single, Single { bits: EIGHTY });
        lemma_values_are_compared(single, Single { bits: NINETY_TWO });
        lemma_values_are_compared(single, Single { bits: ONE_HUNDRED_TWENTY });
        lemma_values_are_compared(single, Single { bits: TWO_HUNDRED });
    }
}

proof fn lemma_small_powers()
    ensures
        pow2(16) == 0x1_0000,
        pow2(17) == 0x2_0000,
        pow2(20) == 0x10_0000,
        pow2(21) == 0x20_0000,
        pow2(22) == 0x40_0000,
{
    vstd::arithmetic::power2::lemma2_to64();
}

/// One bad measure is enough: from its threshold on, each of them alone slows everything down
/// to the lowest step.
pub proof fn lemma_one_severe_measure_is_enough(
    limits: AdaptationLimits,
    target: MediaTarget,
    metrics: AdaptationMetrics,
)
    requires
        limits.are_valid(),
        metrics.packet_loss_percent.reaches(8) || metrics.datagram_drop_percent.reaches(10)
            || metrics.frame_completion_percent.is_below(80) || metrics.decoder_queue_depth >= 6
            || metrics.quic_rtt_ms.reaches(200),
    ensures
        ({
            let adapted = limits.adapted(target, metrics);
            &&& adapted.max_fps <= 20
            &&& adapted.max_fps == limits.maximum_fps || adapted.max_fps == 20
            &&& adapted.resolution_scale_percent == 50
            &&& adapted.audio_bitrate_kbps <= 48
            &&& adapted.audio_bitrate_kbps == limits.maximum_audio_bitrate_kbps
                || adapted.audio_bitrate_kbps == 48
            &&& adapted.video_bitrate_kbps * 100 <= target.video_bitrate_kbps * 65
                || adapted.video_bitrate_kbps == limits.minimum_video_bitrate_kbps
            &&& metrics.estimated_bandwidth_kbps >= 100 ==> adapted.video_bitrate_kbps * 100
                <= metrics.estimated_bandwidth_kbps * 65 || adapted.video_bitrate_kbps
                == limits.minimum_video_bitrate_kbps
            &&& adapted.file_bitrate_kbps * 20 <= metrics.estimated_bandwidth_kbps
        }),
{
    lemma_thresholds(metrics.packet_loss_percent);
    lemma_thresholds(metrics.datagram_drop_percent);
    lemma_thresholds(metrics.frame_completion_percent);
    lemma_thresholds(metrics.quic_rtt_ms);
    lemma_percent(target.video_bitrate_kbps, 65);
    lemma_percent(metrics.estimated_bandwidth_kbps, 65);
    lemma_percent(metrics.estimated_bandwidth_kbps, 5);
}

/// A share of a number: exact as long as the product fits, and never more than the share.
proof fn lemma_percent(value: u32, percent: u32)
    requires
        percent <= 100,
    ensures
        percent_of(value, percent) * 100 <= value * percent,
        value * percent <= 0xffff_ffff ==> value * percent < percent_of(value, percent) * 100 + 100,
        value * percent > 0xffff_ffff ==> percent_of(value, percent) == 42_949_672,
        percent_of(value, percent) <= value,
{
    let product = value * percent;
    assert(0 <= product <= value * 100) by (nonlinear_arith)
        requires
            product == value * percent,
            0 <= percent <= 100,
            0 <= value,
    ;
}

/// Where no measure is that bad, one that reaches its lower threshold slows everything down to
/// the middle step.
pub proof fn lemma_one_strained_measure_is_enough(
    limits: AdaptationLimits,
    target: MediaTarget,
    metrics: AdaptationMetrics,
)
    requires
        limits.are_valid(),
        !metrics.packet_loss_percent.reaches(8),
        !metrics.datagram_drop_percent.reaches(10),
        !metrics.frame_completion_percent.is_below(80),
        metrics.decoder_queue_depth < 6,
        !metrics.quic_rtt_ms.reaches(200),
        metrics.packet_loss_percent.reaches(3) || metrics.datagram_drop_percent.reaches(5)
            || metrics.frame_completion_percent.is_below(92) || metrics.decoder_queue_depth >= 3
            || metrics.input_latency_ms.reaches(120) || metrics.send_queue_bytes >= 2 * 1024 * 1024,
    ensures
        ({
            let adapted = limits.adapted(target, metrics);
            &&& adapted.max_fps <= 30
            &&& adapted.max_fps == limits.maximum_fps || adapted.max_fps == 30
            &&& adapted.resolution_scale_percent == 75
            &&& adapted.audio_bitrate_kbps == limits.maximum_audio_bitrate_kbps
            &&& adapted.video_bitrate_kbps * 100 <= target.video_bitrate_kbps * 82
                || adapted.video_bitrate_kbps == limits.minimum_video_bitrate_kbps
            &&& metrics.estimated_bandwidth_kbps >= 100 ==> adapted.video_bitrate_kbps * 100
                <= metrics.estimated_bandwidth_kbps * 65 || adapted.video_bitrate_kbps
                == limits.minimum_video_bitrate_kbps
            &&& adapted.file_bitrate_kbps * 20 <= metrics.estimated_bandwidth_kbps
        }),
{
    lemma_thresholds(metrics.packet_loss_percent);
    lemma_thresholds(metrics.datagram_drop_percent);
    lemma_thresholds(metrics.frame_completion_percent);
    lemma_thresholds(metrics.quic_rtt_ms);
    lemma_thresholds(metrics.input_latency_ms);
    lemma_percent(target.video_bitrate_kbps, 82);
    lemma_percent(metrics.estimated_bandwidth_kbps, 65);
    lemma_percent(metrics.estimated_bandwidth_kbps, 5);
}

/// A path without a bad measure is used in full: the frame rate, the picture and the sound are
/// as good as the limits allow, and the video bitrate grows until the bandwidth or the limit
/// stops it.
pub proof fn lemma_good_path_is_used(
    limits: AdaptationLimits,
    target: MediaTarget,
    metrics: AdaptationMetrics,
)
    requires
        limits.are_valid(),
        !metrics.packet_loss_percent.reaches(3),
        !metrics.datagram_drop_percent.reaches(5),
        !metrics.frame_completion_percent.is_below(92),
        metrics.decoder_queue_depth < 3,
        !metrics.input_latency_ms.reaches(120),
        metrics.send_queue_bytes < 2 * 1024 * 1024,
        !metrics.quic_rtt_ms.reaches(200),
    ensures
        ({
            let adapted = limits.adapted(target, metrics);
            let bandwidth = metrics.estimated_bandwidth_kbps;
            &&& adapted.max_fps == limits.maximum_fps
            &&& adapted.resolution_scale_percent == 100
            &&& adapted.audio_bitrate_kbps == limits.maximum_audio_bitrate_kbps
            &&& adapted.video_bitrate_kbps == limits.maximum_video_bitrate_kbps
                || adapted.video_bitrate_kbps * 100 + 100 > bandwidth * 80 && bandwidth * 80
                <= 0xffff_ffff && bandwidth > 1 || adapted.video_bitrate_kbps >= 42_949_672
                || adapted.video_bitrate_kbps >= target.video_bitrate_kbps + 100
            &&& bandwidth == 0 && target.video_bitrate_kbps + target.video_bitrate_kbps / 20
                <= limits.maximum_video_bitrate_kbps ==> adapted.video_bitrate_kbps
                >= target.video_bitrate_kbps + target.video_bitrate_kbps / 20
            &&& bandwidth >= 2 ==> adapted.video_bitrate_kbps * 100 <= bandwidth * 80
                || adapted.video_bitrate_kbps == limits.minimum_video_bitrate_kbps
            &&& adapted.file_bitrate_kbps * 5 <= bandwidth
            &&& adapted.file_bitrate_kbps == limits.maximum_file_bitrate_kbps
                || adapted.file_bitrate_kbps * 5 + 5 > bandwidth || adapted.file_bitrate_kbps
                == 42_949_672
        }),
{
    lemma_thresholds(metrics.packet_loss_percent);
    lemma_thresholds(metrics.datagram_drop_percent);
    lemma_thresholds(metrics.frame_completion_percent);
    lemma_thresholds(metrics.quic_rtt_ms);
    lemma_thresholds(metrics.input_latency_ms);
    lemma_whole_numbers_are_ordered(metrics.packet_loss_percent, 3, 8);
    lemma_whole_numbers_are_ordered(metrics.datagram_drop_percent, 5, 10);
    lemma_whole_numbers_are_ordered(metrics.frame_completion_percent, 80, 92);
    lemma_percent(metrics.estimated_bandwidth_kbps, 80);
    lemma_percent(metrics.estimated_bandwidth_kbps, 20);
}

proof fn lemma_whole_numbers_are_ordered(single: Single, less: nat, more: nat)
    requires
        less <= more,
    ensures
        single.reaches(more) ==> single.reaches(less),
        single.is_below(less) ==> single.is_below(more),
{
    lemma_pow2_pos(149);
    let unit = pow2(149);
    assert(less * unit <= more * unit) by (nonlinear_arith)
        requires
            less <= more,
            unit >= 0,
    ;
}

/// On a bad path the video bitrate falls no further than its share, the budget or the minimum
/// ask for, and files keep the twentieth of the bandwidth that is theirs.
pub proof fn lemma_bad_path_costs_no_more_than_its_share(
    limits: AdaptationLimits,
    target: MediaTarget,
    metrics: AdaptationMetrics,
)
    requires
        limits.are_valid(),
        target.video_bitrate_kbps <= 50_000_000,
        metrics.estimated_bandwidth_kbps <= 50_000_000,
    ensures
        ({
            let adapted = limits.adapted(target, metrics);
            let bandwidth = metrics.estimated_bandwidth_kbps;
            &&& adapted.video_bitrate_kbps == limits.maximum_video_bitrate_kbps
                || adapted.video_bitrate_kbps * 100 + 100 > target.video_bitrate_kbps * 65
                || bandwidth > 1 && adapted.video_bitrate_kbps * 100 + 100 > bandwidth * 65
            &&& adapted.resolution_scale_percent == 75 ==> {
                ||| adapted.video_bitrate_kbps == limits.maximum_video_bitrate_kbps
                ||| adapted.video_bitrate_kbps * 100 + 100 > target.video_bitrate_kbps * 82
                ||| bandwidth > 1 && adapted.video_bitrate_kbps * 100 + 100 > bandwidth * 65
            }
            &&& adapted.file_bitrate_kbps == limits.maximum_file_bitrate_kbps
                || adapted.file_bitrate_kbps * 20 + 20 > bandwidth
        }),
{
    lemma_percent(target.video_bitrate_kbps, 65);
    lemma_percent(target.video_bitrate_kbps, 82);
    lemma_percent(metrics.estimated_bandwidth_kbps, 80);
    lemma_percent(metrics.estimated_bandwidth_kbps, 65);
    lemma_percent(metrics.estimated_bandwidth_kbps, 20);
    lemma_percent(metrics.estimated_bandwidth_kbps, 5);
}

/// A key frame comes every two seconds, and every second where a twentieth of the datagrams or
/// more are dropped.
pub proof fn lemma_keyframes_follow_the_drops(
    limits: AdaptationLimits,
    target: MediaTarget,
    metrics: AdaptationMetrics,
)
    requires
        limits.are_valid(),
    ensures
        ({
            let adapted = limits.adapted(target, metrics);
            &&& metrics.datagram_drop_percent.reaches(5) ==> adapted.keyframe_interval_frames
                == adapted.max_fps
            &&& !metrics.datagram_drop_percent.reaches(5) && adapted.max_fps <= 32_767
                ==> adapted.keyframe_interval_frames == 2 * adapted.max_fps
            &&& !metrics.datagram_drop_percent.reaches(5) && adapted.max_fps > 32_767
                ==> adapted.keyframe_interval_frames == 65_535
        }),
{
    lemma_thresholds(metrics.datagram_drop_percent);
}

/// The limits make sense exactly where no bitrate or frame rate is forced to zero; then the
/// first target is the best that they allow.
pub proof fn lemma_first_target_is_the_best(limits: AdaptationLimits)
    ensures
        limits.are_valid() <==> 0 < limits.minimum_video_bitrate_kbps
            <= limits.maximum_video_bitrate_kbps && limits.maximum_fps > 0
            && limits.maximum_audio_bitrate_kbps > 0,
        limits.first_target().video_bitrate_kbps == limits.maximum_video_bitrate_kbps,
        limits.first_target().max_fps == limits.maximum_fps,
        limits.first_target().resolution_scale_percent == 100,
        limits.first_target().audio_bitrate_kbps == limits.maximum_audio_bitrate_kbps,
        limits.first_target().file_bitrate_kbps == limits.maximum_file_bitrate_kbps,
        0 < limits.maximum_fps <= 32_767 ==> limits.first_target().keyframe_interval_frames == 2
            * limits.maximum_fps,
{
}


/// A pattern stands for no number exactly where its exponent is the highest and its digits are
/// not all zero. Such a measure neither reaches anything nor falls below anything.
pub proof fn lemma_what_is_no_number_shows_nothing(first: Single, second: Single)
    ensures
        first.is_nan() <==> (first.bits / 0x80_0000) % 256 == 255 && first.bits % 0x80_0000 != 0,
        first.is_nan() || second.is_nan() ==> !first.at_least_spec(second)
            && !first.less_than_spec(second),
{
    let bits = first.bits;
    assert(bits % 0x80_0000 == (bits % 0x8000_0000) % 0x80_0000);
    assert((bits / 0x80_0000) % 256 == (bits % 0x8000_0000) / 0x80_0000);
}

} // verus!
