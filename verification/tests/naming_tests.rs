use line_capture::ClockParts;
use line_capture::begin_session_paths;
use line_capture::session_paths;

#[test]
fn paths_follow_the_layout() {
    let t = ClockParts { year: 2024, month: 3, day: 7, hour: 9, minute: 5, second: 42 };
    let (dir, file) = session_paths(b"out", &t);
    assert_eq!(dir, b"out/2024_03_07".to_vec());
    assert_eq!(file, b"out/2024_03_07/09_05_42.csv".to_vec());
}

#[test]
fn fields_are_zero_padded() {
    let t = ClockParts { year: 7, month: 12, day: 1, hour: 0, minute: 59, second: 8 };
    let (dir, file) = session_paths(b"/tmp/logs", &t);
    assert_eq!(dir, b"/tmp/logs/0007_12_01".to_vec());
    assert_eq!(file, b"/tmp/logs/0007_12_01/00_59_08.csv".to_vec());
}

#[test]
fn clock_paths_have_the_layout() {
    let (dir, file) = begin_session_paths(b"root").expect("a present-day clock year");
    assert_eq!(dir.len(), b"root/0000_00_00".len());
    assert_eq!(&dir[..5], b"root/");
    for (i, b) in dir[5..].iter().enumerate() {
        if i == 4 || i == 7 {
            assert_eq!(*b, b'_');
        } else {
            assert!(b.is_ascii_digit());
        }
    }
    assert_eq!(&file[..dir.len()], &dir[..]);
    let tail = &file[dir.len()..];
    assert_eq!(tail.len(), b"/00_00_00.csv".len());
    assert_eq!(tail[0], b'/');
    assert_eq!(&tail[9..], b".csv");
    for (i, b) in tail[1..9].iter().enumerate() {
        if i == 2 || i == 5 {
            assert_eq!(*b, b'_');
        } else {
            assert!(b.is_ascii_digit());
        }
    }
}
