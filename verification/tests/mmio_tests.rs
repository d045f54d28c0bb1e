use unicorn_engine::emulator::Unicorn;
use unicorn_engine::mmio::MmioCallbackScope;
use unicorn_engine::unicorn_const::{uc_error, Arch, Mode};

const READ_CB: u64 = 71;
const WRITE_CB: u64 = 72;

fn emu() -> Unicorn<()> {
    Unicorn::new(Arch::ARM, Mode::LITTLE_ENDIAN).unwrap()
}

#[test]
fn mmio_map_creates_one_scope() {
    let mut emu = emu();
    emu.mmio_map(0x1000, 0x2000, Some(READ_CB), Some(WRITE_CB)).unwrap();
    assert_eq!(emu.inner.mmio_callbacks.len(), 1);
    assert_eq!(emu.inner.mmio_callbacks[0].regions, vec![(0x1000, 0x2000)]);
    assert_eq!(emu.mmio_read_target(0x1500), Some(READ_CB));
    assert_eq!(emu.mmio_write_target(0x2fff), Some(WRITE_CB));
    assert_eq!(emu.mmio_read_target(0x3000), None);
}

#[test]
fn mmio_map_rejects_misaligned_window() {
    let mut emu = emu();
    assert_eq!(emu.mmio_map(0x1001, 0x1000, Some(READ_CB), None), Err(uc_error::ARG));
    assert_eq!(emu.mmio_map(0x1000, 0x900, Some(READ_CB), None), Err(uc_error::ARG));
    assert!(emu.inner.mmio_callbacks.is_empty());
}

#[test]
fn unmapping_sub_range_keeps_complement_callable() {
    // Map [0x1000, 0x3000) and unmap its first page: exactly
    // [0x2000, 0x3000) stays backed, and an access inside the removed
    // page reaches no callback any more.
    let mut emu = emu();
    emu.mmio_map(0x1000, 0x2000, Some(READ_CB), Some(WRITE_CB)).unwrap();
    emu.mem_unmap(0x1000, 0x1000).unwrap();
    assert_eq!(emu.inner.mmio_callbacks.len(), 1);
    assert_eq!(emu.inner.mmio_callbacks[0].regions, vec![(0x2000, 0x1000)]);
    assert_eq!(emu.mmio_read_target(0x1500), None);
    assert_eq!(emu.mmio_write_target(0x1500), None);
    assert_eq!(emu.mmio_read_target(0x2500), Some(READ_CB));
    // The engine no longer has the removed page mapped at all.
    assert_eq!(emu.mem_read_as_vec(0x1500, 1), Err(uc_error::READ_UNMAPPED));
}

#[test]
fn unmapping_full_range_discards_scope() {
    let mut emu = emu();
    emu.mmio_map(0x1000, 0x2000, Some(READ_CB), Some(WRITE_CB)).unwrap();
    emu.mem_unmap(0x1000, 0x2000).unwrap();
    assert!(emu.inner.mmio_callbacks.is_empty());
    assert_eq!(emu.mmio_read_target(0x1000), None);
    assert_eq!(emu.mmio_read_target(0x2fff), None);
}

#[test]
fn read_only_and_write_only_scopes() {
    let mut emu = emu();
    emu.mmio_map_ro(0x1000, 0x1000, READ_CB).unwrap();
    emu.mmio_map_wo(0x2000, 0x1000, WRITE_CB).unwrap();
    assert_eq!(emu.mmio_read_target(0x1000), Some(READ_CB));
    assert_eq!(emu.mmio_write_target(0x1000), None);
    assert_eq!(emu.mmio_read_target(0x2000), None);
    assert_eq!(emu.mmio_write_target(0x2000), Some(WRITE_CB));
}

#[test]
fn middle_split_keeps_documented_boundary() {
    // The right remainder of a middle cut starts one address past the
    // window's end: unmapping [0x2000, 0x3000) out of [0x1000, 0x4000)
    // leaves [0x1000, 0x2000) and [0x3001, 0x4000).
    let mut scope = MmioCallbackScope {
        regions: vec![(0x1000, 0x3000)],
        read_callback: Some(READ_CB),
        write_callback: None,
    };
    scope.unmap(0x2000, 0x1000);
    assert_eq!(scope.regions, vec![(0x1000, 0x1000), (0x3001, 0xfff)]);
    assert!(scope.has_regions());
    assert!(!scope.contains(0x3000));
    assert!(scope.contains(0x3001));
}

#[test]
fn split_window_before_and_after_leaves_interval() {
    let mut scope = MmioCallbackScope {
        regions: vec![(0x2000, 0x1000)],
        read_callback: None,
        write_callback: None,
    };
    scope.unmap(0x0, 0x1000);
    scope.unmap(0x4000, 0x1000);
    assert_eq!(scope.regions, vec![(0x2000, 0x1000)]);
}

#[test]
fn split_tail_and_head_overlaps() {
    let mut scope = MmioCallbackScope {
        regions: vec![(0x2000, 0x2000)],
        read_callback: None,
        write_callback: None,
    };
    // Window over the tail truncates on the left of it.
    scope.unmap(0x3000, 0x2000);
    assert_eq!(scope.regions, vec![(0x2000, 0x1000)]);
    // Window over the head keeps the part from the window's end on.
    scope.unmap(0x1000, 0x1800);
    assert_eq!(scope.regions, vec![(0x2800, 0x800)]);
    // A window swallowing the rest empties the scope.
    scope.unmap(0x2000, 0x1000);
    assert_eq!(scope.regions, vec![]);
    assert!(!scope.has_regions());
}

#[test]
fn scopes_are_independent() {
    let mut emu = emu();
    emu.mmio_map(0x1000, 0x1000, Some(1), None).unwrap();
    emu.mmio_map(0x3000, 0x1000, Some(2), None).unwrap();
    emu.mem_unmap(0x3000, 0x1000).unwrap();
    assert_eq!(emu.inner.mmio_callbacks.len(), 1);
    assert_eq!(emu.mmio_read_target(0x1800), Some(1));
    assert_eq!(emu.mmio_read_target(0x3800), None);
}
