use term_image::animation::{PlayAction, Playback, POLL_MS};

fn run(p: &mut Playback, steps: usize) -> Vec<PlayAction> {
    (0..steps).map(|_| p.step(false)).collect()
}

#[test]
fn three_frames_cycle_in_order() {
    let mut p = Playback::new(vec![100, 200, 300]);
    let mut draws = Vec::new();
    let mut slept = 0u64;
    let mut cycle_sleep = Vec::new();
    for _ in 0..200 {
        match p.step(false) {
            PlayAction::Draw(i) => {
                if i == 0 && !draws.is_empty() {
                    cycle_sleep.push(slept);
                    slept = 0;
                }
                draws.push(i);
            }
            PlayAction::Sleep(ms) => {
                assert!(ms <= POLL_MS);
                slept += ms;
            }
            PlayAction::Stop => panic!("stopped without cancellation"),
        }
    }
    assert_eq!(&draws[..7], &[0, 1, 2, 0, 1, 2, 0]);
    assert!(cycle_sleep.len() >= 2);
    assert!(cycle_sleep.iter().all(|&s| s == 600));
}

#[test]
fn first_frame_actions() {
    let mut p = Playback::new(vec![120, 0]);
    assert_eq!(
        run(&mut p, 6),
        vec![
            PlayAction::Draw(0),
            PlayAction::Sleep(50),
            PlayAction::Sleep(50),
            PlayAction::Sleep(20),
            PlayAction::Draw(1),
            PlayAction::Draw(0),
        ]
    );
}

#[test]
fn cancellation_mid_sleep_stops_at_once() {
    let mut p = Playback::new(vec![10_000]);
    assert_eq!(p.step(false), PlayAction::Draw(0));
    assert_eq!(p.step(false), PlayAction::Sleep(POLL_MS));
    assert_eq!(p.step(true), PlayAction::Stop);
    assert_eq!(p.step(false), PlayAction::Stop);
}

#[test]
fn no_frames_stops() {
    let mut p = Playback::new(Vec::new());
    assert_eq!(p.step(false), PlayAction::Stop);
}
