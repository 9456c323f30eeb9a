use base_sys::protection::Protection;

#[test]
fn protection_bits() {
    assert_eq!(i32::from(Protection::read()), 1);
    assert_eq!(i32::from(Protection::read_write()), 3);
    assert_eq!(i32::from(Protection { read: false, write: true }), 2);
    assert_eq!(i32::from(Protection { read: false, write: false }), 0);
}

#[test]
fn protection_bits_agree_with_the_system() {
    assert_eq!(i32::from(Protection::read()), libc::PROT_READ);
    assert_eq!(i32::from(Protection::read_write()), libc::PROT_READ | libc::PROT_WRITE);
    assert_eq!(i32::from(Protection { read: false, write: false }), libc::PROT_NONE);
}

#[test]
fn protection_bits_tell_protections_apart() {
    let all = [(false, false), (false, true), (true, false), (true, true)];
    for (i, p) in all.iter().enumerate() {
        for (j, q) in all.iter().enumerate() {
            let bits = |(read, write): &(bool, bool)| {
                i32::from(Protection { read: *read, write: *write })
            };
            assert_eq!(bits(p) == bits(q), i == j);
        }
    }
}
