use base_sys::syscall::{MapFlags, F_SEAL_WRITE};

#[test]
fn no_flag_is_set_to_begin_with() {
    let none = MapFlags::none();
    assert!(!none.shared && !none.private && !none.fixed);
    assert!(!none.anonymous && !none.noreserve && !none.populate);
}

#[test]
fn seal_against_writing_agrees_with_the_system() {
    assert_eq!(F_SEAL_WRITE, libc::F_SEAL_WRITE as usize);
}
