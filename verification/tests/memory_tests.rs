use unicorn_engine::emulator::Unicorn;
use unicorn_engine::unicorn_const::{uc_error, Arch, MemRegion, Mode, PERM_ALL, PERM_READ,
    PERM_WRITE};

fn emu() -> Unicorn<()> {
    Unicorn::new(Arch::X86, Mode::MODE_64).unwrap()
}

#[test]
fn map_write_read_round_trip() {
    let mut emu = emu();
    emu.mem_map(0x1000, 0x1000, PERM_ALL).unwrap();
    emu.mem_write(0x1100, &[1, 2, 3, 4]).unwrap();
    assert_eq!(emu.mem_read_as_vec(0x1100, 4), Ok(vec![1, 2, 3, 4]));
    let mut buf = vec![0u8; 4];
    emu.mem_read(0x1100, &mut buf).unwrap();
    assert_eq!(buf, vec![1, 2, 3, 4]);
}

#[test]
fn mapped_memory_starts_zeroed() {
    let mut emu = emu();
    emu.mem_map(0x4000, 0x1000, PERM_READ).unwrap();
    assert_eq!(emu.mem_read_as_vec(0x4000, 8), Ok(vec![0u8; 8]));
}

#[test]
fn map_rejects_bad_arguments() {
    let mut emu = emu();
    assert_eq!(emu.mem_map(0x1001, 0x1000, PERM_ALL), Err(uc_error::ARG));
    assert_eq!(emu.mem_map(0x1000, 0x800, PERM_ALL), Err(uc_error::ARG));
    assert_eq!(emu.mem_map(0x1000, 0, PERM_ALL), Err(uc_error::ARG));
    assert_eq!(emu.mem_map(0x1000, 0x1000, 0xff), Err(uc_error::ARG));
    assert_eq!(emu.mem_map(u64::MAX - 0xfff, 0x2000, PERM_ALL), Err(uc_error::ARG));
}

#[test]
fn map_rejects_overlap() {
    let mut emu = emu();
    emu.mem_map(0x2000, 0x2000, PERM_ALL).unwrap();
    assert_eq!(emu.mem_map(0x3000, 0x1000, PERM_ALL), Err(uc_error::MAP));
    assert_eq!(emu.mem_map(0x1000, 0x2000, PERM_ALL), Err(uc_error::MAP));
    // Adjacent is fine.
    emu.mem_map(0x4000, 0x1000, PERM_ALL).unwrap();
}

#[test]
fn read_write_outside_mapping_fail() {
    let mut emu = emu();
    emu.mem_map(0x1000, 0x1000, PERM_ALL).unwrap();
    assert_eq!(emu.mem_read_as_vec(0x3000, 4), Err(uc_error::READ_UNMAPPED));
    assert_eq!(emu.mem_write(0x3000, &[1]), Err(uc_error::WRITE_UNMAPPED));
    // A range running off the end of the region fails too.
    assert_eq!(emu.mem_read_as_vec(0x1ffe, 4), Err(uc_error::READ_UNMAPPED));
    // Empty accesses always succeed.
    assert_eq!(emu.mem_read_as_vec(0x9000, 0), Ok(vec![]));
    assert_eq!(emu.mem_write(0x9000, &[]), Ok(()));
}

#[test]
fn region_list_reflects_map_sequence() {
    let mut emu = emu();
    emu.mem_map(0x3000, 0x1000, PERM_READ).unwrap();
    emu.mem_map(0x1000, 0x1000, PERM_ALL).unwrap();
    let regions = emu.mem_regions().unwrap();
    assert_eq!(
        regions,
        vec![
            MemRegion { begin: 0x1000, end: 0x1fff, perms: PERM_ALL },
            MemRegion { begin: 0x3000, end: 0x3fff, perms: PERM_READ },
        ]
    );
}

#[test]
fn unmap_splits_region_and_keeps_bytes() {
    let mut emu = emu();
    emu.mem_map(0x1000, 0x3000, PERM_ALL).unwrap();
    emu.mem_write(0x1000, &[0xaa; 4]).unwrap();
    emu.mem_write(0x3ffc, &[0xbb; 4]).unwrap();
    emu.mem_unmap(0x2000, 0x1000).unwrap();
    let regions = emu.mem_regions().unwrap();
    assert_eq!(
        regions,
        vec![
            MemRegion { begin: 0x1000, end: 0x1fff, perms: PERM_ALL },
            MemRegion { begin: 0x3000, end: 0x3fff, perms: PERM_ALL },
        ]
    );
    assert_eq!(emu.mem_read_as_vec(0x1000, 4), Ok(vec![0xaa; 4]));
    assert_eq!(emu.mem_read_as_vec(0x3ffc, 4), Ok(vec![0xbb; 4]));
    assert_eq!(emu.mem_read_as_vec(0x2000, 4), Err(uc_error::READ_UNMAPPED));
}

#[test]
fn unmap_whole_region_removes_it() {
    let mut emu = emu();
    emu.mem_map(0x1000, 0x1000, PERM_ALL).unwrap();
    emu.mem_unmap(0x1000, 0x1000).unwrap();
    assert_eq!(emu.mem_regions().unwrap(), vec![]);
    assert_eq!(emu.mem_read_as_vec(0x1000, 1), Err(uc_error::READ_UNMAPPED));
}

#[test]
fn unmap_misaligned_fails() {
    let mut emu = emu();
    emu.mem_map(0x1000, 0x1000, PERM_ALL).unwrap();
    assert_eq!(emu.mem_unmap(0x1001, 0x1000), Err(uc_error::ARG));
    assert_eq!(emu.mem_regions().unwrap().len(), 1);
}

#[test]
fn protect_changes_window_permissions() {
    let mut emu = emu();
    emu.mem_map(0x1000, 0x3000, PERM_ALL).unwrap();
    emu.mem_write(0x2000, &[7, 7]).unwrap();
    emu.mem_protect(0x2000, 0x1000, PERM_READ).unwrap();
    let regions = emu.mem_regions().unwrap();
    assert_eq!(
        regions,
        vec![
            MemRegion { begin: 0x1000, end: 0x1fff, perms: PERM_ALL },
            MemRegion { begin: 0x2000, end: 0x2fff, perms: PERM_READ },
            MemRegion { begin: 0x3000, end: 0x3fff, perms: PERM_ALL },
        ]
    );
    // Contents survive the re-permissioning.
    assert_eq!(emu.mem_read_as_vec(0x2000, 2), Ok(vec![7, 7]));
}

#[test]
fn protect_rejects_bad_arguments() {
    let mut emu = emu();
    emu.mem_map(0x1000, 0x1000, PERM_ALL).unwrap();
    assert_eq!(emu.mem_protect(0x1004, 0x1000, PERM_READ), Err(uc_error::ARG));
    assert_eq!(emu.mem_protect(0x1000, 0x1000, 0x80), Err(uc_error::ARG));
}

#[test]
fn map_unmap_protect_net_effect() {
    let mut emu = emu();
    emu.mem_map(0x1000, 0x2000, PERM_ALL).unwrap();
    emu.mem_map(0x5000, 0x1000, PERM_WRITE).unwrap();
    emu.mem_unmap(0x1000, 0x1000).unwrap();
    emu.mem_protect(0x5000, 0x1000, PERM_READ).unwrap();
    emu.mem_map(0x1000, 0x1000, PERM_READ).unwrap();
    let regions = emu.mem_regions().unwrap();
    assert_eq!(
        regions,
        vec![
            MemRegion { begin: 0x1000, end: 0x1fff, perms: PERM_READ },
            MemRegion { begin: 0x2000, end: 0x2fff, perms: PERM_ALL },
            MemRegion { begin: 0x5000, end: 0x5fff, perms: PERM_READ },
        ]
    );
}
