use netsync::dj::{dj_should_append, DjSystem};
use netsync::timing::{duration_to_nanos, nanos_to_duration, Dur, Stopwatch};

// The stopwatch is driven by explicit clock readings in nanoseconds, so
// these runs use a synthetic clock instead of sleeping.

#[test]
fn elapsed() {
    let mut watch = Stopwatch::new();
    watch.start(0);
    watch.stop(1_000_000_000); // one second later
    assert_eq!(watch.elapsed(1_000_000_000), 1_000_000_000);
}

#[test]
fn reset() {
    let mut watch = Stopwatch::new();
    watch.start(0);
    watch.stop(2_000_000_000); // two seconds later
    watch.reset();
    assert_eq!(watch.elapsed(2_000_000_000), 0);
}

#[test]
fn restart() {
    let mut watch = Stopwatch::new();
    watch.start(0);
    watch.stop(2_000_000_000); // two seconds counted
    watch.restart(5_000_000_000); // drops them
    watch.stop(6_000_000_000); // one second later
    assert_eq!(watch.elapsed(6_000_000_000), 1_000_000_000);
}

// multiple start-stop cycles are cumulative
#[test]
fn stop_start() {
    let mut watch = Stopwatch::new();
    let mut now: u64 = 0;
    for _ in 0..3 {
        watch.start(now);
        now += 1_000_000_000; // a second passes while counting
        watch.stop(now);
        now += 500_000_000; // and half a second while stopped
    }
    assert_eq!(watch.elapsed(now), 3_000_000_000);
}

#[test]
fn start_while_running_does_nothing() {
    let mut watch = Stopwatch::new();
    watch.start(10);
    watch.start(500); // already running: ignored
    watch.stop(110);
    assert_eq!(watch.elapsed(110), 100);
    // stopping again does nothing either
    watch.stop(4_000);
    assert_eq!(watch.elapsed(4_000), 100);
}

#[test]
fn waiting_reports_zero() {
    let watch = Stopwatch::new();
    assert_eq!(watch.elapsed(123_456), 0);
    assert_eq!(Stopwatch::default(), Stopwatch::Waiting);
}

#[test]
fn duration_conversions() {
    assert_eq!(
        duration_to_nanos(Dur {
            secs: 2,
            nanos: 345_678_901,
        }),
        2_345_678_901
    );
    assert_eq!(
        nanos_to_duration(2_345_678_901),
        Dur {
            secs: 2,
            nanos: 345_678_901,
        }
    );
    // the conversions invert each other
    let d = Dur {
        secs: 77,
        nanos: 999_999_999,
    };
    assert_eq!(nanos_to_duration(duration_to_nanos(d)), d);
    assert_eq!(duration_to_nanos(nanos_to_duration(123)), 123);
}

#[test]
fn dj_picks_only_when_sink_empty() {
    assert!(dj_should_append(true, true));
    assert!(!dj_should_append(true, false));
    assert!(!dj_should_append(false, true));
    assert!(!dj_should_append(false, false));
}

#[test]
fn dj_system_holds_its_picker() {
    let mut library: Vec<u64> = vec![41];
    let mut dj: DjSystem<_, Vec<u64>> = DjSystem::new(|res: &mut Vec<u64>| res.pop());
    assert_eq!((dj.f)(&mut library), Some(41));
    assert_eq!((dj.f)(&mut library), None);
}
