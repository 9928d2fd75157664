use textgrid_relabel::audio::{
    fadeout, test_tone, AudioActor, AudioError, FadeOut, Gain, RenderPlan, RenderSource, Sound,
};

fn ready(file: &str) -> AudioActor {
    let mut a = AudioActor::new();
    assert!(a.wants_file(file));
    assert_eq!(a.file_read(file.to_string(), Some(vec![1, 2, 3])), Ok(()));
    assert!(!a.wants_file(file));
    a
}

fn play_plan(start: u64, window: u64, volume: u32) -> RenderPlan {
    RenderPlan {
        source: RenderSource::File,
        skip_ms: start,
        take_ms: window,
        volume,
        fade_in_ms: 50,
        fade_out: FadeOut {
            elapsed_ns: 0,
            carry: 0,
            start_fade_ns: window.saturating_mul(1_000_000).saturating_sub(50_000_000),
            fade_ns: 50_000_000,
        },
    }
}

#[test]
fn a_repeated_request_is_dropped_while_it_sounds() {
    let mut a = ready("f.wav");
    assert_eq!(a.play("f.wav", 1000, 500, 1000, true), Some(play_plan(1000, 500, 1000)));
    assert_eq!(a.play("f.wav", 1000, 500, 1000, false), None);
    assert_eq!(a.play("f.wav", 1000, 900, 300, false), None);
    assert_eq!(a.play("f.wav", 2000, 500, 1000, false), Some(play_plan(2000, 500, 1000)));
    assert_eq!(a.play("f.wav", 1000, 500, 1000, false), Some(play_plan(1000, 500, 1000)));
    // once the sink is empty the same request is rendered again
    assert_eq!(a.play("f.wav", 1000, 500, 1000, true), Some(play_plan(1000, 500, 1000)));
}

#[test]
fn the_first_request_is_rendered_whatever_the_sink_holds() {
    let mut a = ready("f.wav");
    assert_eq!(a.play("f.wav", 0, 500, 1000, false), Some(play_plan(0, 500, 1000)));
    let mut b = ready("f.wav");
    assert_eq!(b.play("f.wav", 7, 500, 1000, false), Some(play_plan(7, 500, 1000)));
}

#[test]
fn another_file_is_read_before_it_is_played() {
    let mut a = ready("f.wav");
    a.play("f.wav", 1000, 500, 1000, true);
    assert!(a.wants_file("g.wav"));
    // not read yet: nothing to render
    assert_eq!(a.play("g.wav", 1000, 500, 1000, true), None);
    assert_eq!(a.file_read("g.wav".to_string(), Some(vec![9])), Ok(()));
        assert_eq!(a.source.as_ref().unwrap().as_ref(), &[9u8][..]);
    assert_eq!(a.play("g.wav", 1000, 500, 1000, false), Some(play_plan(1000, 500, 1000)));
    assert_eq!(a.play("g.wav", 1000, 500, 1000, false), None);
}

#[test]
fn a_file_that_cannot_be_read_is_reported_and_not_played() {
    let mut a = ready("f.wav");
    assert_eq!(a.file_read("g.wav".to_string(), None), Err(AudioError::FileUnreadable));
    // the file is still wanted, so that the next request reads and reports again
    assert!(a.wants_file("g.wav"));
    assert_eq!(a.play("g.wav", 0, 500, 1000, true), None);
    assert_eq!(a.file_read("g.wav".to_string(), None), Err(AudioError::FileUnreadable));
    // the file read before is still held and plays
    assert!(!a.wants_file("f.wav"));
    assert_eq!(a.source.as_ref().unwrap().as_ref(), &[1u8, 2, 3][..]);
    assert_eq!(a.play("f.wav", 0, 500, 1000, true), Some(play_plan(0, 500, 1000)));
    // before any file was read, a failure leaves nothing held
    let mut b = AudioActor::new();
    assert_eq!(b.file_read("g.wav".to_string(), None), Err(AudioError::FileUnreadable));
    assert!(b.source.is_none());
    assert!(b.wants_file("g.wav"));
    assert!(!b.wants_file(""));
    assert_eq!(b.play("", 0, 500, 1000, true), None);
}

#[test]
fn the_device_changes_only_when_the_new_one_opens() {
    let mut a = ready("f.wav");
    assert_eq!(a.device, None);
    assert_eq!(a.change_device("B".to_string(), true), Ok(()));
    assert_eq!(a.device, Some("B".to_string()));
    assert_eq!(a.change_device("C".to_string(), false), Err(AudioError::DeviceUnavailable));
    assert_eq!(a.device, Some("B".to_string()));
    a.play("f.wav", 1, 2, 3, true);
    a.file_read("g.wav".to_string(), None).unwrap_err();
    assert_eq!(a.device, Some("B".to_string()));
    assert_eq!(a.change_device("A".to_string(), true), Ok(()));
    assert_eq!(a.device, Some("A".to_string()));
    // what was rendered last is remembered across devices
    let mut b = ready("f.wav");
    b.play("f.wav", 1000, 500, 1000, true);
    b.change_device("B".to_string(), true).unwrap();
    assert_eq!(b.play("f.wav", 1000, 500, 1000, false), None);
    assert_eq!(b.play("f.wav", 1000, 500, 1000, true), Some(play_plan(1000, 500, 1000)));
}

#[test]
fn the_test_tone_is_short_and_soft() {
    assert_eq!(
        test_tone(),
        RenderPlan {
            source: RenderSource::Tone(440),
            skip_ms: 0,
            take_ms: 900,
            volume: 200,
            fade_in_ms: 200,
            fade_out: FadeOut { elapsed_ns: 0, carry: 0, start_fade_ns: 700_000_000, fade_ns: 200_000_000 },
        }
    );
}

#[test]
fn a_short_window_fades_from_its_start() {
    let mut a = ready("f.wav");
    let plan = a.play("f.wav", 0, 20, 1000, true).unwrap();
    assert_eq!(plan.fade_out.start_fade_ns, 0);
    assert_eq!(plan.fade_out.fade_ns, 50_000_000);
    let plan = a.play("f.wav", 1, u64::MAX, 1000, true).unwrap();
    assert_eq!(plan.fade_out.start_fade_ns, u64::MAX - 50_000_000);
    assert_eq!(fadeout(10, 3), FadeOut { elapsed_ns: 0, carry: 0, start_fade_ns: 0, fade_ns: 10 });
    assert_eq!(fadeout(10, 30), FadeOut { elapsed_ns: 0, carry: 0, start_fade_ns: 20, fade_ns: 10 });
}

#[test]
fn the_gain_falls_in_a_line_to_nothing() {
    // 1000 samples a second: a sample lasts a millisecond
    let mut f = fadeout(50_000_000, 500_000_000);
    for _ in 0..450 {
        assert_eq!(f.next_gain(1000, 1), Gain { num: 1, den: 1 });
    }
    assert_eq!(f.elapsed_ns, 450_000_000);
    assert_eq!(f.next_gain(1000, 1), Gain { num: 49_000_000, den: 50_000_000 });
    for _ in 0..24 {
        f.next_gain(500, 2);
    }
    assert_eq!(f.next_gain(1000, 1), Gain { num: 24_000_000, den: 50_000_000 });
    for _ in 0..22 {
        f.next_gain(1000, 1);
    }
    assert_eq!(f.next_gain(1000, 1), Gain { num: 1_000_000, den: 50_000_000 });
    assert_eq!(f.elapsed_ns, 499_000_000);
    assert_eq!(f.next_gain(1000, 1), Gain { num: 0, den: 1 });
    assert_eq!(f.elapsed_ns, 500_000_000);
    // beyond the end the gain stays at nothing
    for _ in 0..1000 {
        assert_eq!(f.next_gain(1000, 1), Gain { num: 0, den: 1 });
    }
    f.elapsed_ns = i64::MAX - 1;
    assert_eq!(f.next_gain(1, 1), Gain { num: 0, den: 1 });
}

#[test]
fn a_gain_lies_between_nothing_and_one_and_never_rises() {
    for (fade, total, rate) in [(50_000_000u64, 20_000_000u64, 8_000u32), (7, 1_000_003, 44_100), (0, 0, 1), (u64::MAX, 5, 3)] {
        let mut f = fadeout(fade, total);
        let mut before = Gain { num: 1, den: 1 };
        for _ in 0..5_000 {
            let g = f.next_gain(rate, 2);
            assert!(g.den > 0 && g.num <= g.den);
            assert!(g.num as u128 * before.den as u128 <= before.num as u128 * g.den as u128);
            before = g;
        }
    }
}

#[test]
fn the_time_of_samples_adds_up() {
    let mut f = fadeout(0, 1_000_000_000);
    for _ in 0..88_199 {
        assert_eq!(f.next_gain(44_100, 2), Gain { num: 1, den: 1 });
    }
    assert_eq!(f.elapsed_ns, 999_988_662);
    assert_eq!(f.next_gain(44_100, 2), Gain { num: 1, den: 1 });
    assert_eq!((f.elapsed_ns, f.carry), (1_000_000_000, 0));
    // a fade of no length is a cut
    assert_eq!(f.next_gain(44_100, 2), Gain { num: 0, den: 1 });
    assert_eq!((f.elapsed_ns, f.carry), (1_000_011_337, 76_600));
    // without a frame rate no time passes
    assert_eq!(f.next_gain(0, 2), Gain { num: 0, den: 1 });
    assert_eq!(f.next_gain(44_100, 0), Gain { num: 0, den: 1 });
    assert_eq!((f.elapsed_ns, f.carry), (1_000_011_337, 76_600));
    f.start();
    assert_eq!((f.elapsed_ns, f.carry), (0, 0));
    f.reset();
    assert_eq!((f.elapsed_ns, f.carry), (-1, 0));
    assert_eq!(f.next_gain(1, 1), Gain { num: 1, den: 1 });
    assert_eq!(f.elapsed_ns, 999_999_999);
    // the time stops at the largest that can be held
    f.elapsed_ns = i64::MAX - 5;
    f.next_gain(1, 1);
    assert_eq!(f.elapsed_ns, i64::MAX);
}

#[test]
fn the_bytes_of_a_sound_are_shared() {
    let s = Sound::new(vec![1, 2, 3, 4]);
    assert_eq!(s.as_ref().len(), 4);
    let a = s.clone();
    assert_eq!(a.as_ref(), &[1u8, 2, 3, 4][..]);
    assert_eq!(a.as_ref().as_ptr(), s.as_ref().as_ptr());
    let mut reader = std::io::Cursor::new(a);
    let mut first = [0u8; 2];
    std::io::Read::read_exact(&mut reader, &mut first).unwrap();
    assert_eq!(first, [1, 2]);
}
