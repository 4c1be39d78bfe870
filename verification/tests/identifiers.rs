use pallet_music_styles::id::id_preimage;
use pallet_music_styles::{derive_id, BoundedName, StyleId};

fn name(bytes: &[u8]) -> BoundedName {
    BoundedName::make(bytes.to_vec(), 64).unwrap()
}

const RAP: [u8; 32] = [
    2, 255, 101, 162, 91, 227, 45, 158, 23, 227, 95, 209, 34, 92, 156, 92, 37, 123, 28, 90, 47,
    207, 230, 91, 95, 77, 121, 248, 57, 176, 209, 86,
];

const RAP_DRILL: [u8; 32] = [
    11, 82, 223, 41, 84, 235, 138, 86, 162, 152, 22, 116, 66, 32, 86, 113, 66, 255, 213, 223, 24,
    236, 231, 202, 34, 126, 33, 65, 111, 187, 109, 199,
];

#[test]
fn top_level_identifier_is_the_digest_of_the_name() {
    assert_eq!(derive_id(None, &name(b"Rap")), StyleId(RAP));
}

#[test]
fn sub_style_identifier_is_the_digest_of_parent_and_name() {
    let parent = derive_id(None, &name(b"Rap"));
    assert_eq!(derive_id(Some(parent), &name(b"Drill")), StyleId(RAP_DRILL));
}

#[test]
fn derive_id_twice_gives_the_same() {
    let parent = StyleId([7; 32]);
    assert_eq!(
        derive_id(Some(parent), &name(b"Trap")),
        derive_id(Some(parent), &name(b"Trap"))
    );
    assert_eq!(derive_id(None, &name(b"Trap")), derive_id(None, &name(b"Trap")));
}

#[test]
fn derive_id_differs_when_an_input_differs() {
    let names: Vec<&[u8]> = vec![b"Rap", b"Rock", b"Raggae", b"Drill", b"Trap", b"Hardcore", b"R"];
    let parents = vec![None, Some(StyleId([0; 32])), Some(StyleId([1; 32])), Some(StyleId(RAP))];
    let mut seen: Vec<StyleId> = Vec::new();
    for parent in parents.iter() {
        for n in names.iter() {
            let id = derive_id(*parent, &name(n));
            assert!(!seen.contains(&id));
            seen.push(id);
        }
    }
    assert_eq!(seen.len(), 28);
}

#[test]
fn same_sub_name_under_two_parents_gets_two_identifiers() {
    let rap = derive_id(None, &name(b"Rap"));
    let rock = derive_id(None, &name(b"Rock"));
    assert_ne!(
        derive_id(Some(rap), &name(b"Hardcore")),
        derive_id(Some(rock), &name(b"Hardcore"))
    );
}

#[test]
fn preimage_of_a_top_level_name_is_the_name() {
    assert_eq!(id_preimage(None, &b"Rap".to_vec()), b"Rap".to_vec());
}

#[test]
fn preimage_of_a_sub_style_is_parent_then_name() {
    let mut expected = vec![9u8; 32];
    expected.extend_from_slice(b"Drill");
    assert_eq!(id_preimage(Some(StyleId([9; 32])), &b"Drill".to_vec()), expected);
}

#[test]
fn identifier_bytes_round_trip() {
    let id = StyleId::from_bytes(RAP);
    assert_eq!(id.to_bytes(), RAP);
    assert!(id == StyleId(RAP));
    let mut other = RAP;
    other[31] = 0;
    assert!(id != StyleId(other));
}
