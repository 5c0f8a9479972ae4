use lib::error::DecodeBodyIndexError;
use lib::error::EncodeBodyIndexError::{SlotOutOfRange, SubNotInSlot, SubOutOfRange};
use lib::id::{BodyId, SystemId};
use lib::index::{BodyIndex, BodySlot, BodySub, STELLAR_SUB_END};

/// Whether `raw` is a body of the layout table, written from the table alone.
fn in_the_table(raw: u16) -> bool {
    let slot = raw >> 8;
    let sub = raw & 0xff;
    let planet_sub = sub <= 0x7f || (0x80..=0x8f).contains(&sub);
    match slot {
        0x00 => sub <= 0x0f || (0x80..=0x8f).contains(&sub),
        0x01..=0xcf => planet_sub,
        0xe0..=0xef => true,
        _ => false,
    }
}

#[test]
fn every_value_round_trips_and_exactly_the_table_decodes() {
    let mut bodies = 0_u32;
    for raw in 0..=u16::MAX {
        let decoded = BodyIndex::decode(raw);
        assert_eq!(decoded.is_ok(), in_the_table(raw), "{raw:04x}: {decoded:?}");
        if let Ok((slot, sub)) = decoded {
            bodies += 1;
            let index = BodyIndex::new(slot, sub).expect("a decoded pair encodes");
            assert_eq!(index.get(), raw, "{slot:?} {sub:?}");
            assert_eq!((index.slot(), index.sub()), (slot, sub));
            assert_eq!(BodyIndex::try_from(raw), Ok(index));
            assert_eq!(u16::from(index), raw);
        } else {
            assert_eq!(BodyIndex::try_from(raw).err(), decoded.err());
        }
    }
    assert_eq!(bodies, 33_936);
}

#[test]
fn reserved_values_name_what_is_reserved() {
    for raw in [0xd000, 0xdfff, 0xf000, 0xffff] {
        assert_eq!(
            BodyIndex::decode(raw),
            Err(DecodeBodyIndexError::ReservedSlot { raw })
        );
    }
    for raw in [0x0010, 0x007f, 0x0090, 0x00ff, 0x0190, 0xbfff, 0xc0a0] {
        assert_eq!(
            BodyIndex::decode(raw),
            Err(DecodeBodyIndexError::ReservedSub { raw })
        );
    }
}

#[test]
fn the_stellar_level_keeps_plan_eleven_s_sixteen_stars() {
    for raw in 0..u16::from(STELLAR_SUB_END) {
        let (slot, sub) = BodyIndex::decode(raw).expect("a star");
        assert_eq!(slot, BodySlot::Stellar);
        let expected = if raw == 0 {
            BodySub::Primary
        } else {
            BodySub::Component(u8::try_from(raw).unwrap())
        };
        assert_eq!(sub, expected);
    }
    // Nothing of the stellar level lies at 16 or above except a free-floating object's rings.
    assert_eq!(
        BodyIndex::decode(u16::from(STELLAR_SUB_END)),
        Err(DecodeBodyIndexError::ReservedSub { raw: 16 })
    );
    assert_eq!(BodyIndex::primary().get(), 0);
    assert_eq!(
        BodyIndex::decode(0x0100),
        Ok((BodySlot::Planet(1), BodySub::Primary))
    );
}

#[test]
fn blocks_start_where_the_table_says() {
    let at = |slot, sub| BodyIndex::new(slot, sub).unwrap().get();
    assert_eq!(at(BodySlot::Stellar, BodySub::Component(15)), 0x000f);
    assert_eq!(at(BodySlot::Stellar, BodySub::Ring(0)), 0x0080);
    assert_eq!(at(BodySlot::Planet(1), BodySub::Moon(1)), 0x0101);
    assert_eq!(at(BodySlot::Planet(0xbf), BodySub::Ring(15)), 0xbf8f);
    assert_eq!(at(BodySlot::SecondGeneration(0), BodySub::Primary), 0xc000);
    assert_eq!(
        at(BodySlot::SecondGeneration(15), BodySub::Moon(127)),
        0xcf7f
    );
    assert_eq!(at(BodySlot::Belt(0), BodySub::Primary), 0xe000);
    assert_eq!(at(BodySlot::Belt(15), BodySub::Member(255)), 0xefff);
}

#[test]
fn out_of_block_parts_are_rejected() {
    let cases = [
        (
            BodySlot::Planet(0),
            BodySub::Primary,
            SlotOutOfRange(BodySlot::Planet(0)),
        ),
        (
            BodySlot::Planet(0xc0),
            BodySub::Primary,
            SlotOutOfRange(BodySlot::Planet(0xc0)),
        ),
        (
            BodySlot::Belt(16),
            BodySub::Primary,
            SlotOutOfRange(BodySlot::Belt(16)),
        ),
        (
            BodySlot::SecondGeneration(16),
            BodySub::Primary,
            SlotOutOfRange(BodySlot::SecondGeneration(16)),
        ),
        (
            BodySlot::Stellar,
            BodySub::Component(0),
            SubOutOfRange(BodySub::Component(0)),
        ),
        (
            BodySlot::Stellar,
            BodySub::Component(16),
            SubOutOfRange(BodySub::Component(16)),
        ),
        (
            BodySlot::Planet(1),
            BodySub::Moon(0),
            SubOutOfRange(BodySub::Moon(0)),
        ),
        (
            BodySlot::Planet(1),
            BodySub::Moon(128),
            SubOutOfRange(BodySub::Moon(128)),
        ),
        (
            BodySlot::Planet(1),
            BodySub::Ring(16),
            SubOutOfRange(BodySub::Ring(16)),
        ),
        (
            BodySlot::Belt(0),
            BodySub::Member(0),
            SubOutOfRange(BodySub::Member(0)),
        ),
    ];
    for (slot, sub, error) in cases {
        assert_eq!(BodyIndex::new(slot, sub), Err(error), "{slot:?} {sub:?}");
    }
    let misplaced = [
        (BodySlot::Stellar, BodySub::Moon(1)),
        (BodySlot::Stellar, BodySub::Member(1)),
        (BodySlot::Planet(3), BodySub::Component(1)),
        (BodySlot::Planet(3), BodySub::Member(1)),
        (BodySlot::SecondGeneration(2), BodySub::Component(2)),
        (BodySlot::Belt(1), BodySub::Moon(1)),
        (BodySlot::Belt(1), BodySub::Ring(0)),
        (BodySlot::Belt(1), BodySub::Component(1)),
    ];
    for (slot, sub) in misplaced {
        assert_eq!(
            BodyIndex::new(slot, sub),
            Err(SubNotInSlot { slot, sub }),
            "{slot:?} {sub:?}"
        );
    }
}

#[test]
fn parents_are_what_the_index_alone_says() {
    let index = |slot, sub| BodyIndex::new(slot, sub).unwrap();
    let planet = index(BodySlot::Planet(4), BodySub::Primary);
    assert_eq!(planet.parent(), None);
    assert_eq!(
        index(BodySlot::Planet(4), BodySub::Moon(9)).parent(),
        Some(planet)
    );
    assert_eq!(
        index(BodySlot::Planet(4), BodySub::Ring(2)).parent(),
        Some(planet)
    );
    let second = index(BodySlot::SecondGeneration(1), BodySub::Primary);
    assert_eq!(
        index(BodySlot::SecondGeneration(1), BodySub::Moon(1)).parent(),
        Some(second)
    );
    let belt = index(BodySlot::Belt(2), BodySub::Primary);
    assert_eq!(belt.parent(), None);
    assert_eq!(
        index(BodySlot::Belt(2), BodySub::Member(200)).parent(),
        Some(belt)
    );
    assert_eq!(BodyIndex::primary().parent(), None);
    assert_eq!(
        index(BodySlot::Stellar, BodySub::Component(3)).parent(),
        None
    );
    assert_eq!(
        index(BodySlot::Stellar, BodySub::Ring(1)).parent(),
        Some(BodyIndex::primary())
    );
    // Every canonical index's parent is itself canonical and in the same slot.
    for raw in 0..=u16::MAX {
        if let Ok(index) = BodyIndex::try_from(raw) {
            if let Some(parent) = index.parent() {
                assert_eq!(parent.slot(), index.slot());
                assert_eq!(parent.sub(), BodySub::Primary);
            }
        }
    }
}

#[test]
fn indices_order_as_a_system_lists_its_bodies() {
    let index = |slot, sub| BodyIndex::new(slot, sub).unwrap();
    let listed = [
        BodyIndex::primary(),
        index(BodySlot::Stellar, BodySub::Component(1)),
        index(BodySlot::Planet(1), BodySub::Primary),
        index(BodySlot::Planet(1), BodySub::Moon(1)),
        index(BodySlot::Planet(1), BodySub::Ring(0)),
        index(BodySlot::Planet(2), BodySub::Primary),
        index(BodySlot::SecondGeneration(0), BodySub::Primary),
        index(BodySlot::Belt(0), BodySub::Primary),
        index(BodySlot::Belt(0), BodySub::Member(1)),
    ];
    assert!(listed.windows(2).all(|w| w[0] < w[1]));
    // Slots order as their raw values do, so sorting by slot keeps a system's list order.
    let slots: Vec<BodySlot> = listed.iter().map(|i| i.slot()).collect();
    assert!(slots.windows(2).all(|w| w[0] <= w[1]), "{slots:?}");
    let mut previous = None;
    for raw in 0..=u16::MAX {
        if let Ok(index) = BodyIndex::try_from(raw) {
            let slot = index.slot();
            assert!(previous <= Some(slot), "{raw:04x}");
            previous = Some(slot);
        }
    }
}

#[test]
fn a_saved_body_id_reads_its_slot_and_parent_back() {
    let system = SystemId::from_raw(0x0200_0800_2000_0000);
    let saved = BodyId::new(system, 0x0203);
    let index = BodyIndex::try_from(saved.body_index()).expect("in the layout");
    assert_eq!((index.slot(), index.sub()), (BodySlot::Planet(2), BodySub::Moon(3)));
    // A moon's parent is its planet.
    assert_eq!(
        index.parent(),
        Some(BodyIndex::new(BodySlot::Planet(2), BodySub::Primary).unwrap())
    );
    assert_eq!(index.body_id(system), saved);
    assert_eq!(saved.system(), system);
    assert_eq!(system.raw(), 0x0200_0800_2000_0000);
    // 0xD0 is a reserved slot.
    assert_eq!(
        BodyIndex::try_from(0xd001),
        Err(DecodeBodyIndexError::ReservedSlot { raw: 0xd001 })
    );
}
