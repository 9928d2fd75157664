//! The decisions of the audio worker: what to render for each command,
//! on which device, and with which fades.
//!
//! The worker owns the output device, the sink and the bytes of the file
//! that was read last. It takes its commands one by one, in the order in
//! which they arrive. Opening devices, reading files and feeding the sink
//! are the caller's part; what is decided here is handed back as a plan.

use std::sync::Arc;
use vstd::prelude::*;

verus! {

/// The bytes of an audio file, shared between the cache and its readers.
pub struct Sound(Arc<Vec<u8>>);

impl View for Sound {
    type V = Seq<u8>;

    closed spec fn view(&self) -> Seq<u8> {
        (*self.0)@
    }
}

impl Sound {
    /// Takes the bytes of a file.
    pub fn new(bytes: Vec<u8>) -> (s: Sound)
        ensures
            s@ == bytes@,
    {
        Sound(Arc::new(bytes))
    }
}

impl Clone for Sound {
    /// Another holder of the same bytes.
    fn clone(&self) -> (s: Sound)
        ensures
            s@ == self@,
    {
        Sound(self.0.clone())
    }
}

impl AsRef<[u8]> for Sound {
    /// The bytes.
    fn as_ref(&self) -> (b: &[u8])
        ensures
            b@ == self@,
    {
        self.0.as_slice()
    }
}

/// A command to the audio worker. Times are in milliseconds; the volume is
/// in thousandths, 1000 leaving the samples as they are.
#[derive(Debug)]
pub enum SoundCommand {
    /// Play on the output device of this name from now on.
    ChangeDevice(String),
    /// Play a part of a file: the file, where the part starts, how long it
    /// is, and the volume.
    Play(String, u64, u64, u32),
    /// Play a short tone, to show where the sound comes out.
    TestOutputDevice,
}

/// Why a command to the audio worker failed.
#[derive(Debug, Clone, Copy, PartialEq, Eq, Structural)]
pub enum AudioError {
    /// The device is not there or cannot be opened.
    DeviceUnavailable,
    /// The file cannot be read.
    FileUnreadable,
}

/// How long the fades of a part of a file are, in milliseconds.
pub const PLAY_FADE_MS: u64 = 50;

/// How long the test tone is, in milliseconds.
pub const TONE_MS: u64 = 900;

/// How long the fades of the test tone are, in milliseconds.
pub const TONE_FADE_MS: u64 = 200;

/// The pitch of the test tone, in hertz.
pub const TONE_HZ: u32 = 440;

/// The volume of the test tone, in thousandths.
pub const TONE_VOLUME: u32 = 200;

/// Nanoseconds in a millisecond.
pub const NS_PER_MS: u64 = 1_000_000;

/// Nanoseconds in a second.
pub const NS_PER_SECOND: u64 = 1_000_000_000;

/// Where the samples of a rendering come from.
#[derive(Debug, Clone, Copy, PartialEq, Eq, Structural)]
pub enum RenderSource {
    /// From the file whose bytes the worker holds.
    File,
    /// From a sine wave of this many hertz.
    Tone(u32),
}

/// What the worker puts into the sink for one command: the samples of the
/// source from `skip_ms` on, at most `take_ms` of them, scaled to the
/// volume, faded in over `fade_in_ms` and faded out as `fade_out` says.
/// Whatever the sink held before is dropped.
#[derive(Debug, Clone, Copy, PartialEq, Eq, Structural)]
pub struct RenderPlan {
    pub source: RenderSource,
    pub skip_ms: u64,
    pub take_ms: u64,
    pub volume: u32,
    pub fade_in_ms: u64,
    pub fade_out: FadeOut,
}

/// A fade to silence at the end of a rendering, sample by sample.
///
/// It counts the time since its start from the samples that pass, and
/// scales each by a gain: 1 until `start_fade_ns`, then less in proportion
/// to the time since, down to 0 after `fade_ns` more, and 0 from then on.
#[derive(Debug, Clone, Copy, PartialEq, Eq, Structural)]
pub struct FadeOut {
    /// The time since the start, in nanoseconds.
    pub elapsed_ns: i64,
    /// What is left of a nanosecond, in units of one over the frame rate.
    pub carry: u64,
    /// When the fade starts, in nanoseconds since the start.
    pub start_fade_ns: u64,
    /// How long the fade takes.
    pub fade_ns: u64,
}

/// A gain as a fraction: `num / den`, with `den > 0` and `num <= den`.
#[derive(Debug, Clone, Copy, PartialEq, Eq, Structural)]
pub struct Gain {
    pub num: u64,
    pub den: u64,
}

/// The gain at `elapsed` nanoseconds, as numerator and denominator: 1
/// until the fade starts, then `1 - (elapsed - start) / fade` until the
/// fade ends, and 0 from then on. A fade of no length is a cut from 1 to 0.
pub open spec fn gain_at(elapsed: int, start: int, fade: int) -> (int, int) {
    if elapsed <= start {
        (1, 1)
    } else if elapsed - start >= fade {
        (0, 1)
    } else {
        (fade - (elapsed - start), fade)
    }
}

/// A gain is never below 0 and never above 1.
pub proof fn lemma_gain_in_range(elapsed: int, start: int, fade: int)
    ensures
        0 <= gain_at(elapsed, start, fade).0 <= gain_at(elapsed, start, fade).1,
        gain_at(elapsed, start, fade).1 > 0,
{
}

/// A gain never rises with time: at a later time the fraction is at most
/// what it was.
pub proof fn lemma_gain_never_rises(earlier: int, later: int, start: int, fade: int)
    requires
        earlier <= later,
    ensures
        gain_at(later, start, fade).0 * gain_at(earlier, start, fade).1 <= gain_at(
            earlier,
            start,
            fade,
        ).0 * gain_at(later, start, fade).1,
{
    lemma_gain_in_range(earlier, start, fade);
    lemma_gain_in_range(later, start, fade);
    let a = gain_at(earlier, start, fade);
    let b = gain_at(later, start, fade);
    if earlier <= start {
        assert(b.0 * 1 <= 1 * b.1);
    } else if later - start >= fade {
        assert(0 * a.1 == 0) by (nonlinear_arith);
        assert(0 <= a.0 * 1);
    } else {
        assert(b.0 <= a.0);
        assert(b.0 * fade <= a.0 * fade) by (nonlinear_arith)
            requires
                b.0 <= a.0,
                fade > 0,
        ;
    }
}

/// The time after one more sample, and what is left of a nanosecond: a
/// sample lasts a second divided by the frame rate, which is the sample
/// rate times the number of channels. Without a frame rate no time passes.
pub open spec fn advanced(elapsed: int, carry: int, frame_rate: int) -> (int, int) {
    if frame_rate <= 0 {
        (elapsed, carry)
    } else {
        (
            elapsed + (carry + NS_PER_SECOND) / frame_rate,
            (carry + NS_PER_SECOND) % frame_rate,
        )
    }
}

/// Builds the fade over the last `fade_ns` of a rendering of `total_ns`.
/// A fade longer than the whole starts at once.
pub fn fadeout(fade_ns: u64, total_ns: u64) -> (f: FadeOut)
    ensures
        f.elapsed_ns == 0,
        f.carry == 0,
        f.fade_ns == fade_ns,
        f.start_fade_ns == if total_ns >= fade_ns {
            total_ns - fade_ns
        } else {
            0
        },
{
    FadeOut {
        elapsed_ns: 0,
        carry: 0,
        start_fade_ns: if total_ns >= fade_ns {
            total_ns - fade_ns
        } else {
            0
        },
        fade_ns,
    }
}

impl FadeOut {
    /// Starts the count of time anew.
    pub fn start(&mut self)
        ensures
            final(self).elapsed_ns == 0,
            final(self).carry == 0,
            final(self).start_fade_ns == old(self).start_fade_ns,
            final(self).fade_ns == old(self).fade_ns,
    {
        self.elapsed_ns = 0;
        self.carry = 0;
    }

    /// Clears the count of time: the next sample counts from just before
    /// the start.
    pub fn reset(&mut self)
        ensures
            final(self).elapsed_ns == -1,
            final(self).carry == 0,
            final(self).start_fade_ns == old(self).start_fade_ns,
            final(self).fade_ns == old(self).fade_ns,
    {
        self.elapsed_ns = -1;
        self.carry = 0;
    }

    /// Counts one more sample and gives the gain for it.
    ///
    /// The gain lies between 0 and 1 and is at most the gain at the time
    /// before this sample. The time stops at the largest value that it can
    /// hold.
    pub fn next_gain(&mut self, sample_rate: u32, channels: u16) -> (g: Gain)
        ensures
            final(self).start_fade_ns == old(self).start_fade_ns,
            final(self).fade_ns == old(self).fade_ns,
            ({
                let next = advanced(
                    old(self).elapsed_ns as int,
                    old(self).carry as int,
                    sample_rate * channels,
                );
                &&& final(self).carry == next.1
                &&& final(self).elapsed_ns == if next.0 > i64::MAX {
                    i64::MAX as int
                } else {
                    next.0
                }
                &&& (g.num as int, g.den as int) == gain_at(
                    final(self).elapsed_ns as int,
                    old(self).start_fade_ns as int,
                    old(self).fade_ns as int,
                )
            }),
            g.num <= g.den,
            g.den > 0,
            final(self).elapsed_ns >= old(self).elapsed_ns,
            ({
                let before = gain_at(
                    old(self).elapsed_ns as int,
                    old(self).start_fade_ns as int,
                    old(self).fade_ns as int,
                );
                g.num * before.1 <= before.0 * g.den
            }),
    {
        proof {
            let next = advanced(
                old(self).elapsed_ns as int,
                old(self).carry as int,
                sample_rate * channels,
            );
            let after: int = if next.0 > i64::MAX {
                i64::MAX as int
            } else {
                next.0
            };
            assert(after >= old(self).elapsed_ns) by {
                let units = old(self).carry + NS_PER_SECOND;
                let rate = sample_rate * channels;
                if rate > 0 {
                    assert(units / rate >= 0) by (nonlinear_arith)
                        requires
                            units >= 0,
                            rate > 0,
                    ;
                }
            }
            lemma_gain_never_rises(
                old(self).elapsed_ns as int,
                after,
                old(self).start_fade_ns as int,
                old(self).fade_ns as int,
            );
        }
        assert(sample_rate * channels <= 0xffff_ffff * 0xffff) by (nonlinear_arith)
            requires
                0 <= sample_rate <= 0xffff_ffff,
                0 <= channels <= 0xffff,
        ;
        let frame_rate: u64 = sample_rate as u64 * channels as u64;
        if frame_rate > 0 {
            let units: u128 = self.carry as u128 + NS_PER_SECOND as u128;
            let step: u128 = units / frame_rate as u128;
            let next: i128 = self.elapsed_ns as i128 + step as i128;
            self.elapsed_ns = if next > i64::MAX as i128 {
                i64::MAX
            } else {
                next as i64
            };
            self.carry = (units % frame_rate as u128) as u64;
        }
        let elapsed: i128 = self.elapsed_ns as i128;
        let start: i128 = self.start_fade_ns as i128;
        if elapsed <= start {
            Gain { num: 1, den: 1 }
        } else if elapsed - start >= self.fade_ns as i128 {
            Gain { num: 0, den: 1 }
        } else {
            Gain { num: (self.fade_ns as i128 - (elapsed - start)) as u64, den: self.fade_ns }
        }
    }
}

/// What the worker knows between two commands.
pub struct AudioActor {
    /// The name of the output device in use; `None` for the default one.
    pub device: Option<String>,
    /// The file that was read last; empty before the first.
    pub decoded_file: String,
    /// The bytes of that file; none before the first.
    pub source: Option<Sound>,
    /// The file and the start of the part that was rendered last.
    pub debounce: (String, u64),
}

/// What the decisions of the worker depend on.
pub struct ActorView {
    pub device: Option<Seq<char>>,
    pub decoded_file: Seq<char>,
    pub source: Option<Seq<u8>>,
    pub last_file: Seq<char>,
    pub last_start: nat,
}

impl View for AudioActor {
    type V = ActorView;

    open spec fn view(&self) -> ActorView {
        ActorView {
            device: match self.device {
                Some(name) => Some(name@),
                None => None,
            },
            decoded_file: self.decoded_file@,
            source: match self.source {
                Some(sound) => Some(sound@),
                None => None,
            },
            last_file: self.debounce.0@,
            last_start: self.debounce.1 as nat,
        }
    }
}

/// `ms` milliseconds in nanoseconds, or as many as there can be.
pub open spec fn ms_to_ns(ms: nat) -> nat {
    if ms * NS_PER_MS > u64::MAX {
        u64::MAX as nat
    } else {
        (ms * NS_PER_MS) as nat
    }
}

/// The fade over the last `fade_ms` of `total_ms`, before its first sample.
pub open spec fn fade_over(fade_ms: nat, total_ms: nat) -> FadeOut {
    FadeOut {
        elapsed_ns: 0,
        carry: 0,
        start_fade_ns: if ms_to_ns(total_ms) >= ms_to_ns(fade_ms) {
            (ms_to_ns(total_ms) - ms_to_ns(fade_ms)) as u64
        } else {
            0
        },
        fade_ns: ms_to_ns(fade_ms) as u64,
    }
}

/// How a part of the file is rendered: from `start` on, `window` long, at
/// `volume`, with both fades; the fade to silence ends with the window as
/// it was asked for.
pub open spec fn play_plan(start: u64, window: u64, volume: u32) -> RenderPlan {
    RenderPlan {
        source: RenderSource::File,
        skip_ms: start,
        take_ms: window,
        volume,
        fade_in_ms: PLAY_FADE_MS,
        fade_out: fade_over(PLAY_FADE_MS as nat, window as nat),
    }
}

/// How the test tone is rendered.
pub open spec fn tone_plan() -> RenderPlan {
    RenderPlan {
        source: RenderSource::Tone(TONE_HZ),
        skip_ms: 0,
        take_ms: TONE_MS,
        volume: TONE_VOLUME,
        fade_in_ms: TONE_FADE_MS,
        fade_out: fade_over(TONE_FADE_MS as nat, TONE_MS as nat),
    }
}

/// Whether a request repeats the one rendered last while that one still
/// sounds.
pub open spec fn debounced(a: ActorView, file: Seq<char>, start: u64, sink_empty: bool) -> bool {
    a.last_file == file && a.last_start == start && !sink_empty
}

/// What a request to play does: the state after it, and the plan to
/// render, if any. Without the bytes of the file nothing is rendered; a
/// request that repeats the last one while it sounds is dropped; any other
/// is rendered and remembered.
pub open spec fn play_step(
    a: ActorView,
    file: Seq<char>,
    start: u64,
    window: u64,
    volume: u32,
    sink_empty: bool,
) -> (ActorView, Option<RenderPlan>) {
    if a.decoded_file != file || a.source is None || debounced(a, file, start, sink_empty) {
        (a, None)
    } else {
        (
            ActorView { last_file: file, last_start: start as nat, ..a },
            Some(play_plan(start, window, volume)),
        )
    }
}

/// What an attempt to change the device does: where the device was opened
/// it is the one in use from then on; else nothing changes.
pub open spec fn change_step(a: ActorView, name: Seq<char>, opened: bool) -> ActorView {
    if opened {
        ActorView { device: Some(name), ..a }
    } else {
        a
    }
}

/// What an attempt to read a file does: with its bytes it is the file
/// read last; without them nothing changes.
pub open spec fn read_step(a: ActorView, file: Seq<char>, bytes: Option<Seq<u8>>) -> ActorView {
    match bytes {
        Some(b) => ActorView { decoded_file: file, source: Some(b), ..a },
        None => a,
    }
}

/// `ms` milliseconds in nanoseconds, or as many as there can be.
fn ns_of_ms(ms: u64) -> (ns: u64)
    ensures
        ns == ms_to_ns(ms as nat),
{
    if ms > u64::MAX / NS_PER_MS {
        assert(ms * NS_PER_MS > u64::MAX) by (nonlinear_arith)
            requires
                ms > u64::MAX / NS_PER_MS,
        ;
        u64::MAX
    } else {
        assert(ms * NS_PER_MS <= u64::MAX) by (nonlinear_arith)
            requires
                ms <= u64::MAX / NS_PER_MS,
        ;
        ms * NS_PER_MS
    }
}

/// How the test tone is rendered.
pub fn test_tone() -> (plan: RenderPlan)
    ensures
        plan == tone_plan(),
{
    RenderPlan {
        source: RenderSource::Tone(TONE_HZ),
        skip_ms: 0,
        take_ms: TONE_MS,
        volume: TONE_VOLUME,
        fade_in_ms: TONE_FADE_MS,
        fade_out: fadeout(ns_of_ms(TONE_FADE_MS), ns_of_ms(TONE_MS)),
    }
}

impl AudioActor {
    /// The worker at its start: on the default device, with no file read
    /// and nothing rendered.
    pub fn new() -> (a: AudioActor)
        ensures
            a@ == (ActorView {
                device: None,
                decoded_file: Seq::empty(),
                source: None,
                last_file: Seq::empty(),
                last_start: 0,
            }),
    {
        AudioActor {
            device: None,
            decoded_file: String::new(),
            source: None,
            debounce: (String::new(), 0),
        }
    }

    /// Takes note of an attempt to open the device `name`.
    ///
    /// Where it was opened, it is the device in use from now on. Where it
    /// was not, the device in use stays, and the failure is reported.
    pub fn change_device(&mut self, name: String, opened: bool) -> (r: Result<(), AudioError>)
        ensures
            final(self)@ == change_step(old(self)@, name@, opened),
            r == if opened {
                Ok::<(), AudioError>(())
            } else {
                Err::<(), AudioError>(AudioError::DeviceUnavailable)
            },
    {
        if opened {
            self.device = Some(name);
            Ok(())
        } else {
            Err(AudioError::DeviceUnavailable)
        }
    }

    /// Whether `file` must be read before it can be played: it is not the
    /// file that was read last.
    pub fn wants_file(&self, file: &str) -> (b: bool)
        ensures
            b == (self@.decoded_file != file@),
    {
        let name = String::from_str(file);
        self.decoded_file != name
    }

    /// Takes note of an attempt to read `file`. With its bytes it is the
    /// file read last from now on, in place of the one before. Without
    /// them the failure is reported and nothing changes: the file read
    /// before is still held, and the file that could not be read is still
    /// wanted.
    pub fn file_read(&mut self, file: String, bytes: Option<Vec<u8>>) -> (r: Result<
        (),
        AudioError,
    >)
        ensures
            final(self)@ == read_step(
                old(self)@,
                file@,
                match bytes {
                    Some(b) => Some(b@),
                    None => None,
                },
            ),
            r == if bytes is Some {
                Ok::<(), AudioError>(())
            } else {
                Err::<(), AudioError>(AudioError::FileUnreadable)
            },
    {
        match bytes {
            Some(b) => {
                self.decoded_file = file;
                self.source = Some(Sound::new(b));
                Ok(())
            },
            None => Err(AudioError::FileUnreadable),
        }
    }

    /// Decides on a request to play the part of `file` that starts at
    /// `start` and is `window` long, given whether the sink is empty.
    ///
    /// The plan that is returned is to be rendered at once, in place of
    /// whatever sounds. `None` says that nothing is to be done.
    pub fn play(&mut self, file: &str, start: u64, window: u64, volume: u32, sink_empty: bool) -> (r:
        Option<RenderPlan>)
        ensures
            (final(self)@, r) == play_step(old(self)@, file@, start, window, volume, sink_empty),
    {
        let name = String::from_str(file);
        if self.decoded_file != name || self.source.is_none() {
            return None;
        }
        if self.debounce.0 == name && self.debounce.1 == start && !sink_empty {
            return None;
        }
        self.debounce = (name, start);
        Some(
            RenderPlan {
                source: RenderSource::File,
                skip_ms: start,
                take_ms: window,
                volume,
                fade_in_ms: PLAY_FADE_MS,
                fade_out: fadeout(ns_of_ms(PLAY_FADE_MS), ns_of_ms(window)),
            },
        )
    }
}

/// A request that was rendered and is repeated while it sounds is
/// dropped, whatever its length and volume: nothing is rendered and
/// nothing changes.
pub proof fn lemma_repeat_is_dropped(
    a: ActorView,
    file: Seq<char>,
    start: u64,
    window: u64,
    volume: u32,
    sink_empty: bool,
    window2: u64,
    volume2: u32,
)
    requires
        play_step(a, file, start, window, volume, sink_empty).1 is Some,
    ensures
        ({
            let after = play_step(a, file, start, window, volume, sink_empty).0;
            play_step(after, file, start, window2, volume2, false) == (after, None::<RenderPlan>)
        }),
{
}

/// After a request was rendered, a request for the same file from another
/// start is rendered too, whether or not the first still sounds.
pub proof fn lemma_other_start_interrupts(
    a: ActorView,
    file: Seq<char>,
    start: u64,
    window: u64,
    volume: u32,
    sink_empty: bool,
    start2: u64,
    window2: u64,
    volume2: u32,
    sink_empty2: bool,
)
    requires
        play_step(a, file, start, window, volume, sink_empty).1 is Some,
        start2 != start,
    ensures
        ({
            let after = play_step(a, file, start, window, volume, sink_empty).0;
            play_step(after, file, start2, window2, volume2, sink_empty2).1 == Some(
                play_plan(start2, window2, volume2),
            )
        }),
{
}

/// What happens to the worker: an attempt to open a device, an attempt to
/// read a file, a request to play with the state of the sink at that
/// moment, or a request for the test tone.
pub enum ActorEvent {
    Device { name: Seq<char>, opened: bool },
    File { file: Seq<char>, bytes: Option<Seq<u8>> },
    Play { file: Seq<char>, start: u64, window: u64, volume: u32, sink_empty: bool },
    Tone,
}

/// Something rendered: the plan, and the device in use at that moment.
pub struct Rendering {
    pub device: Option<Seq<char>>,
    pub plan: RenderPlan,
}

/// What one event does: the state after it, and what is rendered, if
/// anything.
pub open spec fn step(a: ActorView, e: ActorEvent) -> (ActorView, Option<Rendering>) {
    match e {
        ActorEvent::Device { name, opened } => (change_step(a, name, opened), None),
        ActorEvent::File { file, bytes } => (read_step(a, file, bytes), None),
        ActorEvent::Play { file, start, window, volume, sink_empty } => {
            let after = play_step(a, file, start, window, volume, sink_empty);
            (
                after.0,
                match after.1 {
                    Some(plan) => Some(Rendering { device: a.device, plan }),
                    None => None,
                },
            )
        },
        ActorEvent::Tone => (a, Some(Rendering { device: a.device, plan: tone_plan() })),
    }
}

/// Everything rendered by a run of events, in order.
pub open spec fn renderings(a: ActorView, events: Seq<ActorEvent>) -> Seq<Rendering>
    decreases events.len(),
{
    if events.len() == 0 {
        Seq::empty()
    } else {
        let after = step(a, events[0]);
        let rest = renderings(after.0, events.drop_first());
        match after.1 {
            Some(r) => seq![r] + rest,
            None => rest,
        }
    }
}

/// Of two equal requests in a row, the second while the first still
/// sounds, and a third request from another start, the first and the third
/// are rendered and the second is not, whatever the sink holds at the first
/// and at the third.
pub proof fn lemma_debounce(
    a: ActorView,
    file: Seq<char>,
    start: u64,
    window: u64,
    volume: u32,
    other_start: u64,
    first_sink_empty: bool,
    third_sink_empty: bool,
)
    requires
        a.decoded_file == file,
        a.source is Some,
        !debounced(a, file, start, first_sink_empty),
        other_start != start,
    ensures
        renderings(
            a,
            seq![
                ActorEvent::Play { file, start, window, volume, sink_empty: first_sink_empty },
                ActorEvent::Play { file, start, window, volume, sink_empty: false },
                ActorEvent::Play {
                    file,
                    start: other_start,
                    window,
                    volume,
                    sink_empty: third_sink_empty,
                },
            ],
        ) == seq![
            Rendering { device: a.device, plan: play_plan(start, window, volume) },
            Rendering { device: a.device, plan: play_plan(other_start, window, volume) },
        ],
{
    let e1 = ActorEvent::Play { file, start, window, volume, sink_empty: first_sink_empty };
    let e2 = ActorEvent::Play { file, start, window, volume, sink_empty: false };
    let e3 = ActorEvent::Play {
        file,
        start: other_start,
        window,
        volume,
        sink_empty: third_sink_empty,
    };
    let all = seq![e1, e2, e3];
    let a1 = step(a, e1).0;
    let a2 = step(a1, e2).0;
    let a3 = step(a2, e3).0;
    assert(all.drop_first() =~= seq![e2, e3]);
    assert(seq![e2, e3].drop_first() =~= seq![e3]);
    assert(seq![e3].drop_first() =~= Seq::<ActorEvent>::empty());
    assert(renderings(a3, Seq::<ActorEvent>::empty()) =~= Seq::<Rendering>::empty());
    let r3 = Rendering { device: a.device, plan: play_plan(other_start, window, volume) };
    assert(renderings(a2, seq![e3]) =~= seq![r3]);
    assert(renderings(a1, seq![e2, e3]) =~= seq![r3]);
    let r1 = Rendering { device: a.device, plan: play_plan(start, window, volume) };
    assert(renderings(a, all) =~= seq![r1, r3]);
}

/// Whether no device is opened in a run of events.
pub open spec fn no_device_opened(events: Seq<ActorEvent>) -> bool {
    forall|i: int|
        0 <= i < events.len() ==> !(#[trigger] events[i] matches ActorEvent::Device {
            opened: true,
            ..
        })
}

/// As long as no device is opened, everything is rendered on the device
/// in use at the start.
pub proof fn lemma_renderings_on_device(a: ActorView, events: Seq<ActorEvent>)
    requires
        no_device_opened(events),
    ensures
        forall|k: int|
            0 <= k < renderings(a, events).len() ==> (#[trigger] renderings(a, events)[k]).device
                == a.device,
    decreases events.len(),
{
    if events.len() > 0 {
        let after = step(a, events[0]);
        let tail = events.drop_first();
        assert(!(events[0] matches ActorEvent::Device { opened: true, .. }));
        assert(after.0.device == a.device);
        assert(no_device_opened(tail)) by {
            assert forall|i: int| 0 <= i < tail.len() implies !(#[trigger] tail[i] matches ActorEvent::Device {
                opened: true,
                ..
            }) by {
                assert(tail[i] == events[i + 1]);
            }
        }
        lemma_renderings_on_device(after.0, tail);
        let rest = renderings(after.0, tail);
        let all = renderings(a, events);
        assert forall|k: int| 0 <= k < all.len() implies (#[trigger] all[k]).device
            == a.device by {
            match after.1 {
                Some(r) => {
                    if k > 0 {
                        assert(all[k] == rest[k - 1]);
                    }
                },
                None => {},
            }
        }
    }
}

/// After a device was opened, nothing is rendered on the device that was
/// in use before: everything is rendered on the new one, until another
/// is opened. A device that cannot be opened changes nothing.
pub proof fn lemma_device_isolation(
    a: ActorView,
    name: Seq<char>,
    other: Seq<char>,
    events: Seq<ActorEvent>,
)
    requires
        no_device_opened(events),
    ensures
        change_step(a, name, true).device == Some(name),
        change_step(a, other, false) == a,
        forall|k: int|
            0 <= k < renderings(change_step(a, name, true), events).len() ==> (
            #[trigger] renderings(change_step(a, name, true), events)[k]).device == Some(name),
{
    lemma_renderings_on_device(change_step(a, name, true), events);
}

} // verus!
