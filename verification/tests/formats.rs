use lib::compress::{rle_compress, rle_decompress};
use lib::errno::Errno;
use lib::le::{push_u32, push_u64, read_u32, read_u64, write_u32, write_u64};
use lib::regs::{
    plic_claim, plic_complete, plic_enable, plic_priority, plic_smode_ctx, plic_threshold, sv39_l0_idx, sv39_l1_idx,
    sv39_l2_idx,
};
use lib::vfs::{fd_token, fd_token_epoch, fd_token_idx, FdTable, PERM_READ, PERM_WRITE};

#[test]
fn rle_compress_run_then_literal() {
    let src = [b'A', b'A', b'A', b'A', b'A', b'B'];
    let mut dst = [0u8; 16];
    let n = rle_compress(&src, &mut dst);
    assert_eq!(n, 4);
    assert_eq!(&dst[..4], &[0x84, b'A', 0x00, b'B']);
}

#[test]
fn rle_compress_short_runs_are_literal() {
    let src = [1u8, 1, 2, 2, 3];
    let mut dst = [0u8; 16];
    let n = rle_compress(&src, &mut dst);
    assert_eq!(n, 6);
    assert_eq!(&dst[..6], &[0x04, 1, 1, 2, 2, 3]);
}

#[test]
fn rle_compress_long_run_is_split_at_128() {
    let src = [7u8; 130];
    let mut dst = [0u8; 8];
    let n = rle_compress(&src, &mut dst);
    assert_eq!(n, 5);
    assert_eq!(&dst[..5], &[0xFF, 7, 0x01, 7, 7]);
}

#[test]
fn rle_compress_reports_zero_when_too_small() {
    let src = [1u8, 2, 3, 4, 5];
    let mut dst = [0u8; 3];
    assert_eq!(rle_compress(&src, &mut dst), 0);
}

#[test]
fn rle_roundtrip_restores_input() {
    let mut src = Vec::new();
    for i in 0..300u32 {
        src.push(if i % 50 < 20 { 9u8 } else { (i % 7) as u8 });
    }
    let mut packed = vec![0u8; 1024];
    let n = rle_compress(&src, &mut packed);
    assert!(n > 0);
    let mut out = vec![0u8; src.len()];
    let m = rle_decompress(&packed[..n], &mut out);
    assert_eq!(m, src.len());
    assert_eq!(out, src);
}

#[test]
fn rle_decompress_rejects_truncated_packet() {
    let src = [0x03u8, 1, 2];
    let mut out = [0u8; 8];
    assert_eq!(rle_decompress(&src, &mut out), 0);
}

#[test]
fn rle_decompress_rejects_overflowing_run() {
    let src = [0x85u8, 4];
    let mut out = [0u8; 4];
    assert_eq!(rle_decompress(&src, &mut out), 0);
}

#[test]
fn le_u32_u64_roundtrip() {
    let mut b = vec![0u8; 16];
    write_u32(&mut b, 1, 0xDEAD_BEEF);
    assert_eq!(&b[1..5], &[0xEF, 0xBE, 0xAD, 0xDE]);
    assert_eq!(read_u32(&b, 1), 0xDEAD_BEEF);
    write_u64(&mut b, 8, 0x0102_0304_0506_0708);
    assert_eq!(b[8], 0x08);
    assert_eq!(b[15], 0x01);
    assert_eq!(read_u64(&b, 8), 0x0102_0304_0506_0708);
    let mut v = Vec::new();
    push_u32(&mut v, 5);
    push_u64(&mut v, 6);
    assert_eq!(v, vec![5, 0, 0, 0, 6, 0, 0, 0, 0, 0, 0, 0]);
}

#[test]
fn sv39_indices() {
    let va: u64 = (3 << 30) | (5 << 21) | (7 << 12) | 0x123;
    assert_eq!(sv39_l2_idx(va), 3);
    assert_eq!(sv39_l1_idx(va), 5);
    assert_eq!(sv39_l0_idx(va), 7);
    assert_eq!(sv39_l2_idx(0xFFFF_FFFF_FFFF_FFFF), 511);
}

#[test]
fn plic_register_addresses() {
    assert_eq!(plic_smode_ctx(0), 1);
    assert_eq!(plic_smode_ctx(3), 7);
    assert_eq!(plic_priority(10), 0x0C00_0028);
    assert_eq!(plic_enable(1, 33), 0x0C00_2000 + 0x80 + 4);
    assert_eq!(plic_threshold(1), 0x0C20_1000);
    assert_eq!(plic_claim(1), 0x0C20_1004);
    assert_eq!(plic_complete(1), 0x0C20_1004);
}

#[test]
fn fd_token_names_back_slot_and_epoch() {
    let t = fd_token(5, 9);
    assert_eq!(t, (5u64 << 32) | 9);
    assert_eq!(fd_token_idx(t), 5);
    assert_eq!(fd_token_epoch(t), 9);
}

#[test]
fn fd_token_goes_stale_after_close() {
    let mut fds = FdTable::new();
    let i = fds.alloc_fd(PERM_READ).unwrap();
    assert_eq!(i, 0);
    let t = fd_token(i, fds.fd_get(i).epoch);
    assert_eq!(fds.fd_check(t), Ok(0));
    assert_eq!(fds.close(t), Ok(()));
    assert_eq!(fds.fd_check(t), Err(Errno::BadFd));
    assert_eq!(fds.close(t), Err(Errno::BadFd));
    let j = fds.alloc_fd(PERM_READ).unwrap();
    assert_eq!(j, 0);
    assert_eq!(fds.fd_check(t), Err(Errno::BadFd));
    let t2 = fd_token(j, fds.fd_get(j).epoch);
    assert_ne!(t, t2);
    assert_eq!(fds.fd_check(t2), Ok(0));
}

#[test]
fn fd_check_perm_refuses_missing_permission() {
    let mut fds = FdTable::new();
    let i = fds.alloc_fd(PERM_READ).unwrap();
    let t = fd_token(i, fds.fd_get(i).epoch);
    assert_eq!(fds.fd_check_perm(t, PERM_READ), Ok(i));
    assert_eq!(fds.fd_check_perm(t, PERM_WRITE), Err(Errno::Perm));
    assert_eq!(fds.fd_check_perm(fd_token(99, 1), PERM_READ), Err(Errno::BadFd));
}

#[test]
fn fd_table_runs_out_of_slots() {
    let mut fds = FdTable::new();
    for k in 0..16 {
        assert_eq!(fds.alloc_fd(PERM_READ), Ok(k));
    }
    assert_eq!(fds.alloc_fd(PERM_READ), Err(Errno::NoMem));
}

#[test]
fn rle_worst_case_fits_documented_bound() {
    let src: Vec<u8> = (0..300u32).map(|i| (i % 251) as u8).collect();
    let mut dst = vec![0u8; 300 + 300 / 128 + 2];
    let n = rle_compress(&src, &mut dst);
    assert!(n > 0);
    assert!(n <= 300 + 300 / 128 + 1);
    let mut out = vec![0u8; 300];
    assert_eq!(rle_decompress(&dst[..n], &mut out), 300);
    assert_eq!(out, src);
}

#[test]
fn closed_token_stays_refused_over_many_reallocations() {
    let mut fds = FdTable::new();
    let i = fds.alloc_fd(PERM_READ).unwrap();
    let t = fd_token(i, fds.fd_get(i).epoch);
    assert_eq!(fds.close(t), Ok(()));
    for _ in 0..2000 {
        let j = fds.alloc_fd(PERM_READ).unwrap();
        assert_eq!(j, i);
        assert_eq!(fds.fd_check(t), Err(Errno::BadFd));
        let tj = fd_token(j, fds.fd_get(j).epoch);
        assert_eq!(fds.close(tj), Ok(()));
        assert_eq!(fds.fd_check(t), Err(Errno::BadFd));
    }
}
