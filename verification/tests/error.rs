use lib::error::{DecodeBodyIndexError, EncodeBodyIndexError, ResolveBodyCause, ResolveBodyError};
use lib::id::{Layer, ResolveSystemError};
use lib::index::{BodySlot, BodySub};

/// Lower case at the start (numbers and hexadecimal digits aside) and no full stop at the end.
fn assert_rust_error_style(text: &str) {
    let first = text.chars().next().expect("a message");
    assert!(!first.is_uppercase(), "{text:?} starts with a capital");
    assert!(!text.ends_with('.'), "{text:?} ends with a full stop");
    assert!(!text.is_empty());
}

#[test]
fn every_error_message_is_lower_case_without_a_full_stop() {
    let encode = [
        EncodeBodyIndexError::SlotOutOfRange(BodySlot::Planet(0)),
        EncodeBodyIndexError::SubOutOfRange(BodySub::Moon(200)),
        EncodeBodyIndexError::SubNotInSlot {
            slot: BodySlot::Belt(0),
            sub: BodySub::Ring(0),
        },
    ];
    let decode = [
        DecodeBodyIndexError::ReservedSlot { raw: 0xd000 },
        DecodeBodyIndexError::ReservedSub { raw: 0x0190 },
    ];
    let resolve = [
        ResolveBodyError::NoSuchSystem(ResolveSystemError::NoSuchSystem),
        ResolveBodyError::NoSuchSystem(ResolveSystemError::LayerNotGenerated(
            Layer::BrownDwarf,
        )),
        ResolveBodyError::NoSuchBody,
        ResolveBodyError::MalformedIndex(DecodeBodyIndexError::ReservedSlot { raw: 0xf123 }),
    ];
    let texts: Vec<String> = encode
        .iter()
        .map(|e| e.message())
        .chain(decode.iter().map(|e| e.message()))
        .chain(resolve.iter().map(|e| e.message()))
        .collect();
    for text in &texts {
        assert_rust_error_style(text);
    }
    assert_eq!(
        DecodeBodyIndexError::ReservedSlot { raw: 0xd000 }.message(),
        "body index d000 is in a reserved slot"
    );
    assert_eq!(
        encode[0].message(),
        "planet 0 is outside its block of slots"
    );
    assert_eq!(encode[2].message(), "belt 0 holds no ring 0");
    assert_eq!(
        ResolveBodyError::NoSuchBody.message(),
        "the system holds no such body"
    );
}

#[test]
fn a_resolve_error_names_its_cause() {
    let decode = DecodeBodyIndexError::ReservedSub { raw: 0x0190 };
    let wrapped = ResolveBodyError::from(decode);
    assert_eq!(wrapped, ResolveBodyError::MalformedIndex(decode));
    assert_eq!(
        wrapped.source().map(|cause| match cause {
            ResolveBodyCause::Index(e) => e.message(),
            ResolveBodyCause::System(e) => e.message(),
        }),
        Some(decode.message())
    );
    let system = ResolveBodyError::from(ResolveSystemError::NoSuchSystem);
    assert!(system.source().is_some());
    assert!(ResolveBodyError::NoSuchBody.source().is_none());
}

#[test]
fn messages_spell_out_numbers_and_causes() {
    assert_eq!(
        EncodeBodyIndexError::SubOutOfRange(BodySub::Moon(200)).message(),
        "moon 200 is outside its block of sub-indices"
    );
    assert_eq!(
        EncodeBodyIndexError::SlotOutOfRange(BodySlot::SecondGeneration(16)).message(),
        "second-generation planet 16 is outside its block of slots"
    );
    assert_eq!(
        EncodeBodyIndexError::SubNotInSlot {
            slot: BodySlot::Stellar,
            sub: BodySub::Member(7),
        }
        .message(),
        "the stellar level holds no member 7"
    );
    assert_eq!(
        DecodeBodyIndexError::ReservedSub { raw: 0x0190 }.message(),
        "body index 0190 is a sub-index its slot reserves"
    );
    assert_eq!(
        ResolveBodyError::MalformedIndex(DecodeBodyIndexError::ReservedSlot { raw: 0xf123 })
            .message(),
        "the body index is malformed: body index f123 is in a reserved slot"
    );
    assert_eq!(BodySlot::Belt(15).name(), "belt 15");
    assert_eq!(BodySub::Component(9).name(), "component 9");
    assert_eq!(BodySub::Primary.name(), "primary");
}
