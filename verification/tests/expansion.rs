use classgroup::{random_bytes_from_seed, DigestKind};

#[test]
fn check_random_bytes() {
    assert_eq!(
        random_bytes_from_seed(b"\xaa", 7, DigestKind::Sha256).as_slice(),
        &b"\x9f\x9d*\xe5\xe7<\xcb"[..]
    );
    assert_eq!(
        &random_bytes_from_seed(b"\xaa", 258, DigestKind::Sha256)[..],
        &b"\x9f\x9d*\xe5\xe7<\xcbq\xa4q\x8e\
                   \xbc\xf0\xe3:\xa2\x98\xf8\xbd\xdc\xaa\xcbi\xcb\x10\xff\x0e\xafv\xdb\xec!\xc4K\
                   \xc6Jf\xf3\xa5\xda.7\xb7\xef\x87I\x85\xb8YX\xfc\xf2\x03\xa1\x8f4\xaf`\xab\xae]n\
                   \xcc,g1\x12EI\xc7\xd5\xe2\xfc\x8b\x9a\xde\xd5\xf3\x8f'\xcd\x08\x0fU\xc7\xee\xa85\
                   [>\x87]\x07\x82\x00\x13\xce\xf7\xc3/@\xef\x08v\x8f\x85\x87dm(1\x8b\xd9w\xffA]xzY\
                   \xa0,\xebz\xff\x03$`\x91\xb66\x88-_\xa9\xf1\xc5\x8e,\x15\xae\x8f\x04\rvhnU3f\x84\
                   [{$\xa6l\x95w\xa9\x1f\xba\xa8)\x05\xe6\x8f\x167o\x11/X\x9cl\xab\x9c\xcb}\xec\x88\
                   \xf8\xa5\xabXpY\xb0\x88\xed@r\x05\xba\\\x03\xf6\x91\xf8\x03\xca\x18\x1c\xcdH\x1c\
                   \x91\xe1V\xed;\x94oJ\xa8 \xa4\x97\xb7K\xce\xc4e\xea\xa2\xbf\x8b\x1f\x90\x87\xc8\
                   \x15\xee\x0e\x0fPC:\xb5\xe1g\x97\xea/_\x86c\xaf\x12Wp\xfd\x11\xdb\x17\xe6\x9f\
                   \xa5\x8a"[..]
    );
}

#[test]
fn expansion_is_prefix_consistent() {
    let short = random_bytes_from_seed(b"\xaa", 7, DigestKind::Sha256);
    let long = random_bytes_from_seed(b"\xaa", 258, DigestKind::Sha256);
    assert_eq!(&long[..7], &short[..]);
    assert_eq!(long.len(), 258);
}

#[test]
fn blake2b_expansion_differs_and_is_prefix_consistent() {
    let a = random_bytes_from_seed(b"\xaa", 7, DigestKind::Blake2b);
    let b = random_bytes_from_seed(b"\xaa", 100, DigestKind::Blake2b);
    assert_eq!(&b[..7], &a[..]);
    assert_ne!(a.as_slice(), &b"\x9f\x9d*\xe5\xe7<\xcb"[..]);
    assert_eq!(b.len(), 100);
}
