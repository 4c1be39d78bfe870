use pallet_music_styles::genesis::seed_stands_check;
use pallet_music_styles::pallet::mutation::{check_entry_names, entries_repeat};
use pallet_music_styles::search::place_for;
use pallet_music_styles::{
    BoundedName, Config, Error, GenesisConfig, MutateMusicStyles, Pallet, StyleId, StyleKey,
    StyleKind, SubEntry,
};

fn name(bytes: &[u8]) -> BoundedName {
    BoundedName::make(bytes.to_vec(), 64).unwrap()
}

fn id(byte: u8) -> StyleId {
    StyleId([byte; 32])
}

fn entry(byte: u8, bytes: &[u8]) -> SubEntry {
    SubEntry { id: id(byte), name: name(bytes) }
}

fn small() -> Pallet {
    let mut pallet = Pallet::new(Config::new(4, 3, 2));
    assert_eq!(pallet.insert_parent(id(1), name(b"Rap")), Ok(()));
    assert_eq!(pallet.insert_sub_style(&id(1), entry(11, b"Trap")), Ok(()));
    assert_eq!(pallet.insert_parent(id(2), name(b"Rock")), Ok(()));
    pallet
}

#[test]
fn insert_parent_refusals() {
    let mut pallet = small();
    let before = pallet.get_styles();
    assert_eq!(pallet.insert_parent(id(3), name(b"Blues")), Err(Error::NameTooLong));
    assert_eq!(pallet.insert_parent(id(3), name(b"Rap")), Err(Error::NameAlreadyExists));
    // The identifier of a style, and that of a sub-style, are both taken.
    assert_eq!(pallet.insert_parent(id(1), name(b"Jazz")), Err(Error::NameAlreadyExists));
    assert_eq!(pallet.insert_parent(id(11), name(b"Jazz")), Err(Error::NameAlreadyExists));
    assert_eq!(pallet.get_styles(), before);
    assert_eq!(pallet.insert_parent(id(3), name(b"Jazz")), Ok(()));
    assert_eq!(pallet.insert_parent(id(4), name(b"Folk")), Err(Error::StylesCapacity));
    assert_eq!(pallet.can_insert_parent(&id(4), &name(b"Folk")), Err(Error::StylesCapacity));
}

#[test]
fn insert_sub_style_refusals() {
    let mut pallet = small();
    let before = pallet.get_styles();
    assert_eq!(pallet.insert_sub_style(&id(9), entry(12, b"X")), Err(Error::StyleNotFound));
    // A sub-style is no parent.
    assert_eq!(pallet.insert_sub_style(&id(11), entry(12, b"X")), Err(Error::StyleNotFound));
    assert_eq!(pallet.insert_sub_style(&id(1), entry(12, b"Drill")), Err(Error::NameTooLong));
    assert_eq!(pallet.insert_sub_style(&id(1), entry(12, b"Trap")), Err(Error::NameAlreadyExists));
    assert_eq!(pallet.insert_sub_style(&id(1), entry(11, b"X")), Err(Error::NameAlreadyExists));
    assert_eq!(pallet.insert_sub_style(&id(2), entry(11, b"X")), Err(Error::NameAlreadyExists));
    assert_eq!(pallet.insert_sub_style(&id(2), entry(2, b"X")), Err(Error::NameAlreadyExists));
    assert_eq!(pallet.get_styles(), before);
    // The same name under another parent is fine.
    assert_eq!(pallet.insert_sub_style(&id(2), entry(21, b"Trap")), Ok(()));
    assert_eq!(pallet.insert_sub_style(&id(1), entry(12, b"X")), Ok(()));
    assert_eq!(pallet.insert_sub_style(&id(1), entry(13, b"Y")), Err(Error::StylesCapacity));
    assert_eq!(pallet.can_insert_sub_style(&id(2), &entry(22, b"Y")), Ok(1));
}

#[test]
fn inserted_sub_style_points_to_its_parent() {
    let pallet = small();
    match pallet.find(&id(11)) {
        StyleKind::SubStyle(sub) => {
            assert_eq!(sub.parent_id, id(1));
            assert_eq!(sub.id, id(11));
            assert_eq!(sub.name, name(b"Trap"));
        }
        other => panic!("not a sub-style: {:?}", other),
    }
}

#[test]
fn checked_add_subs_is_all_or_none() {
    let mut pallet = small();
    let before = pallet.get_styles();
    assert_eq!(
        pallet.checked_add_subs(&vec![entry(21, b"A"), entry(21, b"B")], &id(2)),
        Err(Error::NameAlreadyExists)
    );
    assert_eq!(
        pallet.checked_add_subs(&vec![entry(21, b"A"), entry(22, b"B"), entry(23, b"C")], &id(2)),
        Err(Error::StylesCapacity)
    );
    assert_eq!(pallet.checked_add_subs(&vec![], &id(9)), Err(Error::StyleNotFound));
    assert_eq!(pallet.get_styles(), before);
    assert_eq!(pallet.checked_add_subs(&vec![], &id(2)), Ok(()));
    assert_eq!(
        pallet.checked_add_subs(&vec![entry(21, b"A"), entry(22, b"B")], &id(2)),
        Ok(())
    );
    let names: Vec<BoundedName> = pallet.sub_styles();
    assert_eq!(names, vec![name(b"Trap"), name(b"A"), name(b"B")]);
}

#[test]
fn insert_style_refusals_in_order() {
    let mut pallet = small();
    let before = pallet.get_styles();
    // The style itself comes first.
    assert_eq!(
        pallet.insert_style(id(3), name(b"Rap"), &vec![entry(31, b"A"), entry(31, b"A")]),
        Err(Error::NameAlreadyExists)
    );
    // Then the names as submitted.
    assert_eq!(
        pallet.insert_style(id(3), name(b"Jazz"), &vec![entry(31, b"A"), entry(31, b"Blues")]),
        Err(Error::NameTooLong)
    );
    assert_eq!(
        pallet.insert_style(
            id(3),
            name(b"Jazz"),
            &vec![entry(31, b"A"), entry(31, b"A"), entry(33, b"C")]
        ),
        Err(Error::StylesCapacity)
    );
    // Then repeats, by name or by identifier.
    assert_eq!(
        pallet.insert_style(id(3), name(b"Jazz"), &vec![entry(31, b"A"), entry(32, b"A")]),
        Err(Error::DuplicatedStyle)
    );
    assert_eq!(
        pallet.insert_style(id(3), name(b"Jazz"), &vec![entry(31, b"A"), entry(31, b"B")]),
        Err(Error::DuplicatedStyle)
    );
    // Then identifiers that are taken: by another sub-style, by the style itself.
    assert_eq!(
        pallet.insert_style(id(3), name(b"Jazz"), &vec![entry(31, b"A"), entry(11, b"B")]),
        Err(Error::NameAlreadyExists)
    );
    assert_eq!(
        pallet.insert_style(id(3), name(b"Jazz"), &vec![entry(3, b"A")]),
        Err(Error::NameAlreadyExists)
    );
    assert_eq!(pallet.get_styles(), before);
    assert_eq!(
        pallet.insert_style(id(3), name(b"Jazz"), &vec![entry(31, b"Trap"), entry(32, b"B")]),
        Ok(())
    );
    assert_eq!(pallet.len(), 3);
    // "Jazz" stands before "Rap" and "Rock".
    assert_eq!(pallet.styles()[0].name, name(b"Jazz"));
    assert_eq!(pallet.styles()[0].sub_styles[1].parent_id, id(3));
}

#[test]
fn entry_names_are_read_in_order() {
    let cfg = Config::new(2, 1, 2);
    assert_eq!(check_entry_names(&cfg, &vec![]), Ok(()));
    assert_eq!(check_entry_names(&cfg, &vec![entry(1, b"a"), entry(2, b"bb")]), Ok(()));
    assert_eq!(
        check_entry_names(&cfg, &vec![entry(1, b"a"), entry(2, b"bbb"), entry(3, b"c")]),
        Err(Error::NameTooLong)
    );
    assert_eq!(
        check_entry_names(&cfg, &vec![entry(1, b"a"), entry(2, b"b"), entry(3, b"ccc")]),
        Err(Error::NameTooLong)
    );
    assert_eq!(
        check_entry_names(&cfg, &vec![entry(1, b"a"), entry(2, b"b"), entry(3, b"c")]),
        Err(Error::StylesCapacity)
    );
}

#[test]
fn repeats_among_entries() {
    assert!(!entries_repeat(&vec![]));
    assert!(!entries_repeat(&vec![entry(1, b"a")]));
    assert!(!entries_repeat(&vec![entry(1, b"a"), entry(2, b"b"), entry(3, b"c")]));
    assert!(entries_repeat(&vec![entry(1, b"a"), entry(2, b"b"), entry(3, b"a")]));
    assert!(entries_repeat(&vec![entry(1, b"a"), entry(2, b"b"), entry(2, b"c")]));
}

#[test]
fn resolve_parent_by_name_and_identifier() {
    let pallet = small();
    assert_eq!(pallet.resolve_parent(&StyleKey::Name(b"Rock".to_vec())), Ok(id(2)));
    assert_eq!(pallet.resolve_parent(&StyleKey::Id(id(1))), Ok(id(1)));
    assert_eq!(pallet.resolve_parent(&StyleKey::Id(id(11))), Err(Error::StyleNotFound));
    assert_eq!(
        pallet.resolve_parent(&StyleKey::Name(b"Trap".to_vec())),
        Err(Error::StyleNotFound)
    );
    assert_eq!(
        pallet.resolve_parent(&StyleKey::Name(b"Blues".to_vec())),
        Err(Error::NameTooLong)
    );
}

#[test]
fn direct_changes_one_name_at_a_time() {
    let mut pallet = Pallet::new(Config::new(8, 2, 1));
    assert_eq!(MutateMusicStyles::add_parent_style(&mut pallet, name(b"Rap")), Ok(()));
    assert_eq!(
        MutateMusicStyles::add_parent_style(&mut pallet, name(b"Rap")),
        Err(Error::NameAlreadyExists)
    );
    assert_eq!(
        MutateMusicStyles::add_sub_style(&mut pallet, name(b"Trap"), name(b"Rock")),
        Err(Error::StyleNotFound)
    );
    assert_eq!(
        MutateMusicStyles::add_sub_style(&mut pallet, name(b"Trap"), name(b"Rap")),
        Ok(())
    );
    assert_eq!(
        MutateMusicStyles::add_sub_style(&mut pallet, name(b"Trap"), name(b"Rap")),
        Err(Error::NameAlreadyExists)
    );
    assert_eq!(
        MutateMusicStyles::add_sub_style(&mut pallet, name(b"Drill"), name(b"Rap")),
        Err(Error::StylesCapacity)
    );
    assert_eq!(MutateMusicStyles::add_parent_style(&mut pallet, name(b"Rock")), Ok(()));
    assert_eq!(
        MutateMusicStyles::add_parent_style(&mut pallet, name(b"Jazz")),
        Err(Error::StylesCapacity)
    );
    assert_eq!(pallet.parent_styles(), vec![name(b"Rap"), name(b"Rock")]);
    assert_eq!(pallet.sub_styles(), vec![name(b"Trap")]);
}

#[test]
fn genesis_with_nothing_builds_an_empty_registry() {
    let genesis = GenesisConfig::default();
    assert!(genesis.seeds_stand_check(Config::new(1, 0, 0)));
    let pallet = genesis.build(Config::new(1, 0, 0)).unwrap();
    assert_eq!(pallet.len(), 0);
    assert!(pallet.get_styles().is_empty());
}

#[test]
fn seed_list_that_cannot_stand_is_told() {
    let cfg = Config::new(8, 2, 2);
    let twice = GenesisConfig {
        styles: vec![(b"Rock".to_vec(), vec![b"Hardcore".to_vec()]), (b"Rock".to_vec(), vec![])],
    };
    assert!(!twice.seeds_stand_check(cfg));
    let repeated = GenesisConfig {
        styles: vec![(b"Rock".to_vec(), vec![b"Punk".to_vec(), b"Punk".to_vec()])],
    };
    assert!(!repeated.seeds_stand_check(cfg));
    let long = GenesisConfig { styles: vec![(b"Rap".to_vec(), vec![vec![b'x'; 9]])] };
    assert!(!long.seeds_stand_check(cfg));
    let long_style = GenesisConfig { styles: vec![(vec![b'x'; 9], vec![])] };
    assert!(!long_style.seeds_stand_check(cfg));
    let empty_name = GenesisConfig { styles: vec![(Vec::new(), vec![])] };
    assert!(!empty_name.seeds_stand_check(cfg));
    let empty_sub = GenesisConfig { styles: vec![(b"Rap".to_vec(), vec![Vec::new()])] };
    assert!(!empty_sub.seeds_stand_check(cfg));
    let many = GenesisConfig {
        styles: vec![
            (b"a".to_vec(), vec![]),
            (b"b".to_vec(), vec![]),
            (b"c".to_vec(), vec![]),
        ],
    };
    assert!(!many.seeds_stand_check(cfg));
    let crowded = GenesisConfig {
        styles: vec![(b"a".to_vec(), vec![b"x".to_vec(), b"y".to_vec(), b"z".to_vec()])],
    };
    assert!(!crowded.seeds_stand_check(cfg));
}

#[test]
fn seed_list_that_stands_is_built() {
    let cfg = Config::new(8, 2, 2);
    let genesis = GenesisConfig {
        styles: vec![
            (b"Rock".to_vec(), vec![b"Punk".to_vec(), b"Metal".to_vec()]),
            (b"Rap".to_vec(), vec![b"Punk".to_vec()]),
        ],
    };
    assert!(genesis.seeds_stand_check(cfg));
    let pallet = genesis.build(cfg).unwrap();
    assert_eq!(pallet.parent_styles(), vec![name(b"Rap"), name(b"Rock")]);
    assert_eq!(pallet.sub_styles(), vec![name(b"Punk"), name(b"Punk"), name(b"Metal")]);
    assert!(seed_stands_check(&(b"Rock".to_vec(), vec![b"Punk".to_vec()]), &cfg));
    assert!(!seed_stands_check(
        &(b"Rock".to_vec(), vec![b"Punk".to_vec(), b"Punk".to_vec()]),
        &cfg
    ));
}

#[test]
fn place_for_counts_the_names_before() {
    let pallet = small();
    assert_eq!(place_for(pallet.styles(), &b"Jazz".to_vec()), 0);
    assert_eq!(place_for(pallet.styles(), &b"Rap".to_vec()), 0);
    assert_eq!(place_for(pallet.styles(), &b"Reggae".to_vec()), 1);
    assert_eq!(place_for(pallet.styles(), &b"Rock".to_vec()), 1);
    assert_eq!(place_for(pallet.styles(), &b"Soul".to_vec()), 2);
    assert_eq!(place_for(&Vec::new(), &b"Soul".to_vec()), 0);
}
