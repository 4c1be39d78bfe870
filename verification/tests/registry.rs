use pallet_music_styles::{
    derive_id, BoundedName, Config, Error, Event, GenesisConfig, Pallet, StyleId, StyleKey,
    StyleKind,
};

fn name(bytes: &[u8]) -> BoundedName {
    BoundedName::make(bytes.to_vec(), 64).unwrap()
}

fn by_name(bytes: &[u8]) -> StyleKey {
    StyleKey::Name(bytes.to_vec())
}

fn top_id(bytes: &[u8]) -> StyleId {
    derive_id(None, &name(bytes))
}

fn sub_id(parent: &[u8], bytes: &[u8]) -> StyleId {
    derive_id(Some(top_id(parent)), &name(bytes))
}

fn seeded() -> Pallet {
    let genesis = GenesisConfig {
        styles: vec![
            (b"Reggae".to_vec(), vec![]),
            (
                b"Rap".to_vec(),
                vec![b"Drill".to_vec(), b"Trap".to_vec(), b"Hardcore".to_vec()],
            ),
            (b"Rock".to_vec(), vec![b"Hardcore".to_vec()]),
        ],
    };
    let config = Config::new(64, 8, 4);
    assert!(genesis.seeds_stand_check(config));
    genesis.build(config).unwrap()
}

#[test]
fn seeded_registry_scenario() {
    let mut pallet = seeded();
    assert!(pallet.contains(&by_name(b"Rap")));
    assert!(pallet.contains(&by_name(b"Hardcore")));

    let before = pallet.get_styles();
    assert_eq!(
        pallet.add_sub_style(by_name(b"Rap"), vec![b"Drill".to_vec()]),
        Err(Error::NameAlreadyExists)
    );
    assert_eq!(pallet.get_styles(), before);

    assert_eq!(
        pallet.add_sub_style(by_name(b"Reggae"), vec![b"Victory".to_vec()]),
        Ok(vec![Event::SubStyleAdded(b"Victory".to_vec())])
    );

    let rap = top_id(b"Rap");
    assert_eq!(pallet.remove(&StyleKey::Id(rap)), Ok(Event::StyleRemoved(rap)));
    assert!(!pallet.contains(&by_name(b"Rap")));
    assert!(!pallet.contains(&by_name(b"Drill")));
    assert!(!pallet.contains(&by_name(b"Trap")));
    // "Hardcore" is still there, under Rock.
    assert!(pallet.contains(&by_name(b"Hardcore")));
    assert_eq!(pallet.len(), 2);
}

#[test]
fn fresh_style_is_added_and_contained() {
    let mut pallet = seeded();
    assert!(!pallet.contains(&by_name(b"Jazz")));
    assert_eq!(
        pallet.add_style(b"Jazz".to_vec(), None),
        Ok(vec![Event::StyleAdded(b"Jazz".to_vec())])
    );
    assert!(pallet.contains(&by_name(b"Jazz")));
    assert!(pallet.contains(&StyleKey::Id(top_id(b"Jazz"))));
    assert_eq!(pallet.len(), 4);
}

#[test]
fn style_may_take_the_name_of_a_sub_style() {
    let mut pallet = seeded();
    assert!(pallet.add_style(b"Hardcore".to_vec(), None).is_ok());
    assert!(pallet.is_parent_style(&name(b"Hardcore")));
}

#[test]
fn existing_style_name_is_refused() {
    let mut pallet = seeded();
    let before = pallet.get_styles();
    assert_eq!(
        pallet.add_style(b"Rock".to_vec(), None),
        Err(Error::NameAlreadyExists)
    );
    assert_eq!(pallet.get_styles(), before);
}

#[test]
fn empty_style_name_is_refused() {
    let mut pallet = seeded();
    assert_eq!(pallet.add_style(Vec::new(), None), Err(Error::NameTooLong));
    assert_eq!(
        pallet.add_style(b"Jazz".to_vec(), Some(vec![Vec::new()])),
        Err(Error::NameTooLong)
    );
    assert_eq!(pallet.len(), 3);
}

#[test]
fn name_at_the_limit_is_accepted_and_one_more_byte_is_not() {
    let mut pallet = Pallet::new(Config::new(5, 4, 4));
    assert!(pallet.add_style(b"abcde".to_vec(), None).is_ok());
    assert_eq!(pallet.add_style(b"abcdef".to_vec(), None), Err(Error::NameTooLong));
    assert_eq!(pallet.len(), 1);
}

#[test]
fn full_registry_refuses_one_more_style() {
    let mut pallet = Pallet::new(Config::new(8, 3, 2));
    for n in [b"a", b"b", b"c"] {
        assert!(pallet.add_style(n.to_vec(), None).is_ok());
    }
    assert_eq!(pallet.len(), 3);
    assert_eq!(pallet.add_style(b"d".to_vec(), None), Err(Error::StylesCapacity));
    assert_eq!(pallet.len(), 3);
    assert!(!pallet.contains(&by_name(b"d")));
}

#[test]
fn repeated_sub_name_is_refused_as_duplicated() {
    let mut pallet = seeded();
    let before = pallet.get_styles();
    assert_eq!(
        pallet.add_style(
            b"Jazz".to_vec(),
            Some(vec![b"Bebop".to_vec(), b"Cool".to_vec(), b"Bebop".to_vec()])
        ),
        Err(Error::DuplicatedStyle)
    );
    assert_eq!(pallet.get_styles(), before);
    assert!(!pallet.contains(&by_name(b"Jazz")));
    assert!(!pallet.contains(&by_name(b"Bebop")));
    assert!(!pallet.contains(&by_name(b"Cool")));
}

#[test]
fn too_many_sub_styles_come_before_a_repeat() {
    let mut pallet = Pallet::new(Config::new(8, 3, 2));
    assert_eq!(
        pallet.add_style(
            b"Jazz".to_vec(),
            Some(vec![b"a".to_vec(), b"a".to_vec(), b"b".to_vec()])
        ),
        Err(Error::StylesCapacity)
    );
}

#[test]
fn too_long_parent_comes_before_everything_else() {
    let mut pallet = Pallet::new(Config::new(2, 0, 0));
    assert_eq!(
        pallet.add_style(b"abc".to_vec(), Some(vec![b"x".to_vec(), b"x".to_vec()])),
        Err(Error::NameTooLong)
    );
    assert_eq!(
        pallet.add_style(b"ab".to_vec(), Some(vec![b"x".to_vec(), b"x".to_vec()])),
        Err(Error::StylesCapacity)
    );
}

#[test]
fn style_with_sub_styles_emits_events_in_order() {
    let mut pallet = Pallet::new(Config::new(8, 3, 3));
    assert_eq!(
        pallet.add_style(b"Jazz".to_vec(), Some(vec![b"Cool".to_vec(), b"Bebop".to_vec()])),
        Ok(vec![
            Event::StyleAdded(b"Jazz".to_vec()),
            Event::SubStyleAdded(b"Cool".to_vec()),
            Event::SubStyleAdded(b"Bebop".to_vec()),
        ])
    );
    let styles = pallet.styles();
    assert_eq!(styles.len(), 1);
    assert_eq!(styles[0].id, top_id(b"Jazz"));
    assert_eq!(styles[0].sub_styles.len(), 2);
    assert_eq!(styles[0].sub_styles[0].name, name(b"Cool"));
    assert_eq!(styles[0].sub_styles[0].id, sub_id(b"Jazz", b"Cool"));
    assert_eq!(styles[0].sub_styles[0].parent_id, top_id(b"Jazz"));
    assert_eq!(styles[0].sub_styles[1].name, name(b"Bebop"));
}

#[test]
fn added_sub_style_is_found_by_its_derived_identifier() {
    let mut pallet = seeded();
    let parent = top_id(b"Rock");
    assert!(pallet
        .add_sub_style(StyleKey::Id(parent), vec![b"X".to_vec()])
        .is_ok());
    match pallet.find(&derive_id(Some(parent), &name(b"X"))) {
        StyleKind::SubStyle(sub) => {
            assert_eq!(sub.parent_id, parent);
            assert_eq!(sub.name, name(b"X"));
            assert_eq!(sub.id, sub_id(b"Rock", b"X"));
        }
        other => panic!("not a sub-style: {:?}", other),
    }
}

#[test]
fn find_tells_styles_from_sub_styles() {
    let pallet = seeded();
    match pallet.find(&top_id(b"Rap")) {
        StyleKind::MainStyle(style) => {
            assert_eq!(style.name, name(b"Rap"));
            assert_eq!(style.sub_styles.len(), 3);
        }
        other => panic!("not a style: {:?}", other),
    }
    match pallet.find(&sub_id(b"Rock", b"Hardcore")) {
        StyleKind::SubStyle(sub) => assert_eq!(sub.parent_id, top_id(b"Rock")),
        other => panic!("not a sub-style: {:?}", other),
    }
    assert_eq!(pallet.find(&StyleId([0; 32])), StyleKind::NotFound);
    // A sub-style's name alone derives no identifier that occurs.
    assert_eq!(pallet.find(&top_id(b"Drill")), StyleKind::NotFound);
}

#[test]
fn contains_by_identifier_and_by_name() {
    let pallet = seeded();
    assert!(pallet.contains(&StyleKey::Id(top_id(b"Reggae"))));
    assert!(pallet.contains(&StyleKey::Id(sub_id(b"Rap", b"Trap"))));
    assert!(!pallet.contains(&StyleKey::Id(sub_id(b"Rock", b"Trap"))));
    assert!(pallet.contains(&by_name(b"Trap")));
    assert!(!pallet.contains(&by_name(b"Unexisting")));
    assert!(!pallet.contains(&by_name(b"")));
    assert!(pallet.contains_id(&top_id(b"Rock")));
}

#[test]
fn removing_a_style_removes_its_sub_style_identifiers() {
    let mut pallet = seeded();
    let subs = [
        sub_id(b"Rap", b"Drill"),
        sub_id(b"Rap", b"Trap"),
        sub_id(b"Rap", b"Hardcore"),
    ];
    for id in subs.iter() {
        assert!(pallet.contains(&StyleKey::Id(*id)));
    }
    assert!(pallet.remove_id(&top_id(b"Rap")).is_ok());
    assert!(!pallet.contains(&StyleKey::Id(top_id(b"Rap"))));
    for id in subs.iter() {
        assert!(!pallet.contains(&StyleKey::Id(*id)));
    }
    assert!(pallet.contains(&StyleKey::Id(sub_id(b"Rock", b"Hardcore"))));
}

#[test]
fn removing_a_sub_style_leaves_its_siblings() {
    let mut pallet = seeded();
    let trap = sub_id(b"Rap", b"Trap");
    assert_eq!(pallet.remove_id(&trap), Ok(Event::SubStyleRemoved(trap)));
    let rap = match pallet.find(&top_id(b"Rap")) {
        StyleKind::MainStyle(style) => style,
        other => panic!("not a style: {:?}", other),
    };
    let names: Vec<BoundedName> = rap.sub_styles.iter().map(|s| s.name.clone()).collect();
    assert_eq!(names, vec![name(b"Drill"), name(b"Hardcore")]);
    assert_eq!(pallet.len(), 3);
}

#[test]
fn removing_what_is_not_there_is_refused() {
    let mut pallet = seeded();
    let before = pallet.get_styles();
    assert_eq!(pallet.remove_id(&StyleId([3; 32])), Err(Error::StyleNotFound));
    assert_eq!(pallet.remove(&by_name(b"Unexisting")), Err(Error::StyleNotFound));
    assert_eq!(pallet.get_styles(), before);
}

#[test]
fn removing_by_name_takes_the_style_first_then_the_first_sub_style() {
    let mut pallet = seeded();
    // "Hardcore" names two sub-styles: the one under Rap is read first.
    let first = sub_id(b"Rap", b"Hardcore");
    assert_eq!(pallet.resolve(&by_name(b"Hardcore")), Some(first));
    assert_eq!(pallet.remove(&by_name(b"Hardcore")), Ok(Event::SubStyleRemoved(first)));
    assert_eq!(
        pallet.resolve(&by_name(b"Hardcore")),
        Some(sub_id(b"Rock", b"Hardcore"))
    );
    assert_eq!(
        pallet.remove(&by_name(b"Rock")),
        Ok(Event::StyleRemoved(top_id(b"Rock")))
    );
    assert!(!pallet.contains(&by_name(b"Hardcore")));
    assert_eq!(pallet.resolve(&StyleKey::Id(top_id(b"Rock"))), None);
}

#[test]
fn renaming_a_style_keeps_its_identifier() {
    let mut pallet = seeded();
    let rap = top_id(b"Rap");
    assert_eq!(
        pallet.update_style_name(&rap, b"Hip hop".to_vec()),
        Ok(Event::StyleNameUpdated(b"Rap".to_vec(), b"Hip hop".to_vec()))
    );
    match pallet.find(&rap) {
        StyleKind::MainStyle(style) => {
            assert_eq!(style.name, name(b"Hip hop"));
            assert_eq!(style.id, rap);
            assert_eq!(style.sub_styles.len(), 3);
            assert_eq!(style.sub_styles[0].parent_id, rap);
        }
        other => panic!("not a style: {:?}", other),
    }
    assert!(!pallet.contains(&by_name(b"Rap")));
    // The old name still derives the identifier in use.
    assert_eq!(
        pallet.add_style(b"Rap".to_vec(), None),
        Err(Error::NameAlreadyExists)
    );
}

#[test]
fn renaming_a_sub_style_keeps_its_identifier() {
    let mut pallet = seeded();
    let drill = sub_id(b"Rap", b"Drill");
    assert_eq!(
        pallet.update_style_name(&drill, b"UK Drill".to_vec()),
        Ok(Event::SubStyleNameUpdated(b"Drill".to_vec(), b"UK Drill".to_vec()))
    );
    match pallet.find(&drill) {
        StyleKind::SubStyle(sub) => {
            assert_eq!(sub.name, name(b"UK Drill"));
            assert_eq!(sub.parent_id, top_id(b"Rap"));
        }
        other => panic!("not a sub-style: {:?}", other),
    }
}

#[test]
fn renaming_is_refused_for_taken_long_or_unknown() {
    let mut pallet = seeded();
    let before = pallet.get_styles();
    assert_eq!(
        pallet.update_style_name(&top_id(b"Rap"), b"Rock".to_vec()),
        Err(Error::NameAlreadyExists)
    );
    assert_eq!(
        pallet.update_style_name(&sub_id(b"Rap", b"Drill"), b"Trap".to_vec()),
        Err(Error::NameAlreadyExists)
    );
    assert_eq!(
        pallet.update_style_name(&top_id(b"Rap"), vec![b'x'; 65]),
        Err(Error::NameTooLong)
    );
    assert_eq!(
        pallet.update_style_name(&StyleId([0; 32]), b"Jazz".to_vec()),
        Err(Error::StyleNotFound)
    );
    // A name that is too long is refused before the identifier is looked up.
    assert_eq!(
        pallet.update_style_name(&StyleId([0; 32]), Vec::new()),
        Err(Error::NameTooLong)
    );
    assert_eq!(pallet.get_styles(), before);
}

#[test]
fn sub_style_may_be_renamed_to_a_name_used_under_another_parent() {
    let mut pallet = seeded();
    assert!(pallet
        .update_style_name(&sub_id(b"Rock", b"Hardcore"), b"Drill".to_vec())
        .is_ok());
}

#[test]
fn sub_styles_are_added_all_or_none() {
    let mut pallet = seeded();
    let before = pallet.get_styles();
    assert_eq!(
        pallet.add_sub_style(
            by_name(b"Rock"),
            vec![b"Punk".to_vec(), b"Metal".to_vec(), b"Punk".to_vec()]
        ),
        Err(Error::NameAlreadyExists)
    );
    assert_eq!(pallet.get_styles(), before);
    // Rock holds one of four: three more fit, a fourth does not.
    assert_eq!(
        pallet.add_sub_style(
            by_name(b"Rock"),
            vec![b"Punk".to_vec(), b"Metal".to_vec(), b"Indie".to_vec(), b"Folk".to_vec()]
        ),
        Err(Error::StylesCapacity)
    );
    assert_eq!(pallet.get_styles(), before);
    assert_eq!(
        pallet.add_sub_style(
            by_name(b"Rock"),
            vec![b"Punk".to_vec(), b"Metal".to_vec(), b"Indie".to_vec()]
        ),
        Ok(vec![
            Event::SubStyleAdded(b"Punk".to_vec()),
            Event::SubStyleAdded(b"Metal".to_vec()),
            Event::SubStyleAdded(b"Indie".to_vec()),
        ])
    );
}

#[test]
fn sub_styles_need_an_existing_top_level_parent() {
    let mut pallet = seeded();
    assert_eq!(
        pallet.add_sub_style(by_name(b"Drill"), vec![b"X".to_vec()]),
        Err(Error::StyleNotFound)
    );
    assert_eq!(
        pallet.add_sub_style(StyleKey::Id(sub_id(b"Rap", b"Drill")), vec![b"X".to_vec()]),
        Err(Error::StyleNotFound)
    );
    assert_eq!(
        pallet.add_sub_style(by_name(b""), vec![b"X".to_vec()]),
        Err(Error::NameTooLong)
    );
    assert_eq!(
        pallet.add_sub_style(by_name(b"Unexisting"), Vec::new()),
        Err(Error::StyleNotFound)
    );
    assert_eq!(pallet.add_sub_style(by_name(b"Rock"), Vec::new()), Ok(Vec::new()));
}

#[test]
fn flat_lists_of_names() {
    let pallet = seeded();
    assert_eq!(
        pallet.parent_styles(),
        vec![name(b"Rap"), name(b"Reggae"), name(b"Rock")]
    );
    assert_eq!(
        pallet.sub_styles(),
        vec![name(b"Drill"), name(b"Trap"), name(b"Hardcore"), name(b"Hardcore")]
    );
    assert!(pallet.is_parent_style(&name(b"Rap")));
    assert!(!pallet.is_parent_style(&name(b"Trap")));
    assert!(pallet.is_sub_style(&name(b"Trap")));
    assert!(!pallet.is_sub_style(&name(b"Rap")));
    assert!(pallet.exist(&name(b"Rap")));
    assert!(pallet.exist(&name(b"Trap")));
    assert!(!pallet.exist(&name(b"Jazz")));
}

#[test]
fn exist_from_refuses_what_cannot_be_a_name() {
    let pallet = seeded();
    assert_eq!(pallet.exist_from(vec![b'x'; 65]), Err(Error::NameTooLong));
    assert_eq!(pallet.exist_from(Vec::new()), Err(Error::NameTooLong));
    assert_eq!(pallet.exist_from(b"Trap".to_vec()), Ok(Some(name(b"Trap"))));
}

#[test]
fn conversions_to_names() {
    let pallet = Pallet::new(Config::new(4, 2, 2));
    assert_eq!(pallet.to_bounded_style(b"Rock".to_vec()), Ok(name(b"Rock")));
    assert_eq!(pallet.to_bounded_style(b"Rocks".to_vec()), Err(Error::NameTooLong));
    assert_eq!(
        pallet.to_bounded_sub_styles(&vec![b"a".to_vec(), b"b".to_vec()]),
        Ok(vec![name(b"a"), name(b"b")])
    );
    assert_eq!(
        pallet.to_bounded_sub_styles(&vec![b"a".to_vec(), b"b".to_vec(), b"c".to_vec()]),
        Err(Error::StylesCapacity)
    );
    // The third entry is too long before it is one too many.
    assert_eq!(
        pallet.to_bounded_sub_styles(&vec![b"a".to_vec(), b"b".to_vec(), b"ccccc".to_vec()]),
        Err(Error::NameTooLong)
    );
    assert_eq!(pallet.to_bounded_sub_styles(&Vec::new()), Ok(Vec::new()));
}

#[test]
fn clone_is_a_snapshot() {
    let mut pallet = seeded();
    let snapshot = pallet.clone();
    assert!(pallet.add_style(b"Jazz".to_vec(), None).is_ok());
    assert_eq!(snapshot.len(), 3);
    assert_eq!(pallet.len(), 4);
    assert_eq!(snapshot.config(), pallet.config());
    assert_eq!(snapshot.config(), Config::new(64, 8, 4));
}

#[test]
fn styles_are_held_in_the_order_of_their_names() {
    let mut pallet = Pallet::new(Config::new(8, 8, 4));
    for n in [&b"Rock"[..], b"Rap", b"Jazz", b"Reggae", b"Ra", b"Rocks"] {
        assert!(pallet.add_style(n.to_vec(), None).is_ok());
    }
    assert_eq!(
        pallet.parent_styles(),
        vec![
            name(b"Jazz"),
            name(b"Ra"),
            name(b"Rap"),
            name(b"Reggae"),
            name(b"Rock"),
            name(b"Rocks")
        ]
    );
    let stored: Vec<BoundedName> = pallet.styles().iter().map(|s| s.name.clone()).collect();
    assert_eq!(stored, pallet.parent_styles());
}

#[test]
fn sub_styles_are_read_by_the_order_of_their_parents() {
    let mut pallet = Pallet::new(Config::new(8, 8, 4));
    assert!(pallet.add_style(b"Rock".to_vec(), Some(vec![b"Hardcore".to_vec()])).is_ok());
    assert!(pallet.add_style(b"Rap".to_vec(), Some(vec![b"Drill".to_vec()])).is_ok());
    assert_eq!(pallet.parent_styles(), vec![name(b"Rap"), name(b"Rock")]);
    assert_eq!(pallet.sub_styles(), vec![name(b"Drill"), name(b"Hardcore")]);
    // Within one style the sub-styles stay as they were added.
    assert!(pallet
        .add_sub_style(by_name(b"Rap"), vec![b"Trap".to_vec(), b"Boom".to_vec()])
        .is_ok());
    assert_eq!(
        pallet.sub_styles(),
        vec![name(b"Drill"), name(b"Trap"), name(b"Boom"), name(b"Hardcore")]
    );
}

#[test]
fn seed_order_does_not_matter_for_the_order_held() {
    let pallet = seeded();
    let names: Vec<BoundedName> = pallet.get_styles().iter().map(|s| s.name.clone()).collect();
    assert_eq!(names, vec![name(b"Rap"), name(b"Reggae"), name(b"Rock")]);
}

#[test]
fn renamed_style_moves_to_the_place_of_its_new_name() {
    let mut pallet = seeded();
    let rap = top_id(b"Rap");
    assert!(pallet.update_style_name(&rap, b"Trip hop".to_vec()).is_ok());
    assert_eq!(
        pallet.parent_styles(),
        vec![name(b"Reggae"), name(b"Rock"), name(b"Trip hop")]
    );
    assert_eq!(
        pallet.sub_styles(),
        vec![name(b"Hardcore"), name(b"Drill"), name(b"Trap"), name(b"Hardcore")]
    );
    // It keeps its identifier and its sub-styles.
    match pallet.find(&rap) {
        StyleKind::MainStyle(style) => assert_eq!(style.sub_styles.len(), 3),
        other => panic!("not a style: {:?}", other),
    }
    assert!(pallet.update_style_name(&rap, b"Afro".to_vec()).is_ok());
    assert_eq!(pallet.parent_styles(), vec![name(b"Afro"), name(b"Reggae"), name(b"Rock")]);
}
