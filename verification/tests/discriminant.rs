use classgroup::{create_discriminant, DigestKind};
use num_bigint::{BigInt, BigUint};
use std::str::FromStr;

#[test]
fn check_discriminant_1() {
    assert_eq!(
        create_discriminant(b"\xaa", 40, DigestKind::Sha256).unwrap(),
        BigInt::from(-685_537_176_559i64)
    );
}

#[test]
fn check_discriminant_3() {
    assert_eq!(
        create_discriminant(b"\xaa", 1024, DigestKind::Sha256).unwrap(),
        BigInt::from_str(
            "-112084717443890964296630631725167420667316836131914185144761\
             7438378168250988242739496385274308134767869324152361453294226\
             8295868231081182819214054220080323345750407342623884342617809\
             8794592117225058677336074005099949757067786815439982423354682\
             0386024058617141397148586038290164093146862666602485017735298\
             03183"
        )
        .unwrap()
    )
}

#[test]
fn check_discriminant_2() {
    assert_eq!(
        create_discriminant(b"\xaa", 2048, DigestKind::Sha256).unwrap(),
        -BigInt::from_str(
            "201493927071865251625903550712920535753645598483515670853547009\
             878440933309489362800393797428711071833308081461824159206915864\
             150805748296170245037221957772328044276705571745811271212292422\
             075849739248257870371300001313586036515879618764093772248760562\
             386804073478433157526816295216137723803793411828867470089409596\
             238958950007370719325959579892866588928887249912429688364409867\
             895510817680171869190054122881274299350947669820596157115994418\
             034091728887584373727555384075665624624856766441009974642693066\
             751400054217209981490667208950669417773785631693879782993019167\
             69407006303085854796535778826115224633447713584423"
        )
        .unwrap()
    );
}

#[test]
fn discriminant_is_deterministic() {
    let a = create_discriminant(b"\xaa", 40, DigestKind::Sha256).unwrap();
    let b = create_discriminant(b"\xaa", 40, DigestKind::Sha256).unwrap();
    assert_eq!(a, b);
}

#[test]
fn distinct_seeds_give_distinct_discriminants() {
    let a = create_discriminant(b"\xaa", 40, DigestKind::Sha256).unwrap();
    let b = create_discriminant(b"\xab", 40, DigestKind::Sha256).unwrap();
    assert_ne!(a, b);
}

#[test]
fn discriminant_invariants_hold_across_lengths() {
    for &length in &[40u16, 100, 256, 1024] {
        let d = create_discriminant(b"\x01\x02\x03", length, DigestKind::Sha256).unwrap();
        let magnitude = (-&d).to_biguint().unwrap();
        assert!(d < BigInt::from(0));
        assert_eq!(&magnitude % 8u32, 7u32.into());
        assert_eq!(magnitude.bits(), u64::from(length));
    }
}

#[test]
fn discriminant_magnitude_is_probable_prime() {
    let d = create_discriminant(b"\xaa", 128, DigestKind::Sha256).unwrap();
    let magnitude = (-&d).to_biguint().unwrap();
    assert!(classgroup::is_probable_prime(&magnitude));
}

/// An independent many-round Miller-Rabin check, written here from
/// scratch so it shares nothing with the library's own test.
fn miller_rabin_many_rounds(n: &BigUint) -> bool {
    let one = BigUint::from(1u64);
    let two = BigUint::from(2u64);
    if n < &two {
        return false;
    }
    if n % 2u32 == BigUint::from(0u64) {
        return n == &two;
    }
    let n1 = n - 1u32;
    let s = n1.trailing_zeros().unwrap();
    let d = &n1 >> s;
    'bases: for a in [2u64, 3, 5, 7, 11, 13, 17, 19, 23, 29, 31, 37] {
        if BigUint::from(a) >= n - 1u32 {
            continue;
        }
        let mut x = BigUint::from(a).modpow(&d, n);
        if x == one || x == n1 {
            continue;
        }
        for _ in 1..s {
            x = x.modpow(&two, n);
            if x == n1 {
                continue 'bases;
            }
        }
        return false;
    }
    true
}

#[test]
fn discriminant_magnitude_passes_many_round_miller_rabin() {
    for &length in &[40u16, 1024] {
        let d = create_discriminant(b"\xaa", length, DigestKind::Sha256).unwrap();
        let magnitude = (-&d).to_biguint().unwrap();
        assert!(miller_rabin_many_rounds(&magnitude));
    }
}

#[test]
fn blake2b_discriminant_differs_from_sha256() {
    let a = create_discriminant(b"\xaa", 64, DigestKind::Sha256).unwrap();
    let b = create_discriminant(b"\xaa", 64, DigestKind::Blake2b).unwrap();
    assert_ne!(a, b);
    assert!(b < BigInt::from(0));
    assert_eq!((-&b).to_biguint().unwrap().bits(), 64);
}

#[test]
fn probable_prime_test_separates_primes_from_composites() {
    let prime = num_bigint::BigUint::from(1_000_003u64);
    let composite = num_bigint::BigUint::from(1_000_001u64);
    assert!(classgroup::is_probable_prime(&prime));
    assert!(!classgroup::is_probable_prime(&composite));
    assert!(classgroup::is_probable_prime(&num_bigint::BigUint::from(2u64)));
    assert!(!classgroup::is_probable_prime(&num_bigint::BigUint::from(1u64)));
}
