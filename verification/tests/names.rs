use pallet_music_styles::name::{bytes_copy, bytes_eq};
use pallet_music_styles::order::compare_bytes;
use pallet_music_styles::{BoundedName, Error};
use std::cmp::Ordering;

#[test]
fn name_of_one_byte_is_made() {
    let name = BoundedName::make(vec![b'a'], 4).unwrap();
    assert_eq!(name.as_bytes(), &vec![b'a']);
    assert_eq!(name.len(), 1);
}

#[test]
fn name_as_long_as_the_limit_is_made() {
    let name = BoundedName::make(b"abcd".to_vec(), 4).unwrap();
    assert_eq!(name.into_bytes(), b"abcd".to_vec());
}

#[test]
fn name_one_byte_over_the_limit_is_too_long() {
    assert_eq!(BoundedName::make(b"abcde".to_vec(), 4), Err(Error::NameTooLong));
}

#[test]
fn empty_name_is_refused() {
    assert_eq!(BoundedName::make(Vec::new(), 4), Err(Error::NameTooLong));
}

#[test]
fn no_name_fits_a_limit_of_zero() {
    assert_eq!(BoundedName::make(vec![1], 0), Err(Error::NameTooLong));
    assert_eq!(BoundedName::make(Vec::new(), 0), Err(Error::NameTooLong));
}

#[test]
fn names_are_equal_by_their_bytes() {
    let a = BoundedName::make(b"Rock".to_vec(), 4).unwrap();
    let b = BoundedName::make(b"Rock".to_vec(), 64).unwrap();
    let c = BoundedName::make(b"Rack".to_vec(), 64).unwrap();
    assert!(a == b);
    assert!(a != c);
    assert!(a.has_bytes(&b"Rock".to_vec()));
    assert!(!a.has_bytes(&b"Roc".to_vec()));
}

#[test]
fn name_clone_keeps_bytes() {
    let a = BoundedName::make(b"Trap".to_vec(), 9).unwrap();
    let b = a.clone();
    assert_eq!(b.as_bytes(), &b"Trap".to_vec());
    assert!(a == b);
}

#[test]
fn names_are_ordered_by_their_bytes() {
    let rap = BoundedName::make(b"Rap".to_vec(), 8).unwrap();
    let rock = BoundedName::make(b"Rock".to_vec(), 8).unwrap();
    let ra = BoundedName::make(b"Ra".to_vec(), 8).unwrap();
    assert_eq!(rap.partial_cmp(&rock), Some(Ordering::Less));
    assert_eq!(rock.partial_cmp(&rap), Some(Ordering::Greater));
    assert_eq!(ra.partial_cmp(&rap), Some(Ordering::Less));
    assert_eq!(rap.partial_cmp(&rap.clone()), Some(Ordering::Equal));
    assert!(ra < rap && rap < rock);
}

#[test]
fn compare_bytes_gives_the_sign() {
    assert_eq!(compare_bytes(&vec![], &vec![]), 0);
    assert_eq!(compare_bytes(&vec![], &vec![0]), -1);
    assert_eq!(compare_bytes(&vec![0], &vec![]), 1);
    assert_eq!(compare_bytes(&vec![1, 2, 3], &vec![1, 2, 4]), -1);
    assert_eq!(compare_bytes(&vec![1, 3], &vec![1, 2, 4]), 1);
    assert_eq!(compare_bytes(&vec![255], &vec![255]), 0);
}

#[test]
fn compare_bytes_orders_as_vectors_do() {
    let samples: Vec<Vec<u8>> = vec![
        vec![],
        vec![0],
        vec![0, 0],
        vec![0, 1],
        vec![1],
        vec![1, 0],
        vec![200, 3],
        vec![200, 3, 1],
        vec![255],
    ];
    for a in samples.iter() {
        for b in samples.iter() {
            let expected = match a.cmp(b) {
                Ordering::Less => -1,
                Ordering::Equal => 0,
                Ordering::Greater => 1,
            };
            assert_eq!(compare_bytes(a, b), expected);
        }
    }
}

#[test]
fn bytes_eq_and_copy() {
    assert!(bytes_eq(&vec![], &vec![]));
    assert!(bytes_eq(&vec![1, 2], &vec![1, 2]));
    assert!(!bytes_eq(&vec![1, 2], &vec![1, 3]));
    assert!(!bytes_eq(&vec![1, 2], &vec![1, 2, 3]));
    assert_eq!(bytes_copy(&vec![9, 8, 7]), vec![9, 8, 7]);
    assert_eq!(bytes_copy(&vec![]), Vec::<u8>::new());
}
