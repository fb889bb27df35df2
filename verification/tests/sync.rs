use tinyboot::sync::Sync;

#[test]
fn sync_immediate() {
    let mut sync = Sync::default();
    sync.read(&[0xAA, 0x55]).unwrap();
    assert_eq!(sync, Sync::valid());
}

#[test]
fn sync_after_garbage() {
    let mut sync = Sync::default();
    sync.read(&[0xFF, 0x00, 0x42, 0xAA, 0x55]).unwrap();
    assert_eq!(sync, Sync::valid());
}

#[test]
fn sync_false_start() {
    let mut sync = Sync::default();
    sync.read(&[0xAA, 0x00, 0xAA, 0x55]).unwrap();
    assert_eq!(sync, Sync::valid());
}

#[test]
fn sync_repeated_first_byte() {
    let mut sync = Sync::default();
    sync.read(&[0xAA, 0xAA, 0x55]).unwrap();
    assert_eq!(sync, Sync::valid());
}

#[test]
fn default_is_invalid() {
    assert_ne!(Sync::default(), Sync::valid());
}

#[test]
fn sync_reports_bytes_consumed_and_stops_there() {
    let mut sync = Sync::default();
    assert_eq!(sync.read(&[0x01, 0xAA, 0x55, 0xAA, 0x55]), Ok(3));
    assert_eq!(sync, Sync::valid());
}

#[test]
fn sync_runs_out() {
    let mut sync = Sync::default();
    assert!(sync.read(&[0x01, 0xAA, 0x54]).is_err());
    assert_eq!(sync, Sync(0xAA, 0x54));
}

#[test]
fn sync_carries_state_across_reads() {
    let mut sync = Sync::default();
    assert!(sync.read(&[0x00, 0xAA]).is_err());
    assert_eq!(sync.read(&[0x55]), Ok(1));
}

#[test]
fn shift_one_byte() {
    let mut sync = Sync(0x00, 0xAA);
    assert!(sync.shift(0x55));
    assert!(!sync.shift(0x55));
    assert_eq!(sync, Sync(0x55, 0x55));
}
