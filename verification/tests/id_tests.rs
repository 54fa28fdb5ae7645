use coda_agent::agent::ThreadId;
use coda_agent::ids::{MessageId, Timestamp, TurnId};
use coda_agent::llm::MessageOrigin;
use coda_agent::ProcessId;
use uuid::Uuid;

/// The root thread id is whatever session id the client chose, and it is not required to be a UUID. Two such
/// sessions must still derive distinct child threads.
#[test]
fn agent_non_uuid_parents_derive_distinct_children() {
    let one = ThreadId::from("session-mf3k2x".to_string());
    let other = ThreadId::from("session-mf3k2y".to_string());

    assert_ne!(
        ThreadId::from_uuid5(&one, "explore"),
        ThreadId::from_uuid5(&other, "explore")
    );
}

/// Deriving from a parent that *is* a UUID must keep using it as the namespace directly.
#[test]
fn agent_uuid_parent_is_used_as_the_namespace_directly() {
    let parent = ThreadId::from("6ba7b810-9dad-11d1-80b4-00c04fd430c8".to_string());

    assert_eq!(
        ThreadId::from_uuid5(&parent, "explore").as_str(),
        Uuid::new_v5(&Uuid::parse_str(parent.as_str()).unwrap(), b"explore").to_string()
    );
}

#[test]
fn process_non_uuid_parents_derive_distinct_children() {
    let one = ProcessId::from("session-mf3k2x".to_string());
    let other = ProcessId::from("session-mf3k2y".to_string());

    assert_ne!(
        ProcessId::from_uuid5(&one, "explore"),
        ProcessId::from_uuid5(&other, "explore")
    );
}

#[test]
fn process_uuid_parent_is_used_as_the_namespace_directly() {
    let parent = ProcessId::from("6ba7b810-9dad-11d1-80b4-00c04fd430c8".to_string());

    assert_eq!(
        ProcessId::from_uuid5(&parent, "explore").as_str(),
        Uuid::new_v5(&Uuid::parse_str(parent.as_str()).unwrap(), b"explore").to_string()
    );
}

#[test]
fn a_parent_that_is_no_uuid_is_hashed_into_a_namespace() {
    let fixed = Uuid::from_u128(0x3f7a1c62_5be4_4d0f_9a31_c6d84b7e02f5);
    let namespace = Uuid::new_v5(&fixed, b"session-1");
    assert_eq!(
        ThreadId::from_uuid5(&ThreadId::from("session-1".to_string()), "explore").as_str(),
        Uuid::new_v5(&namespace, b"explore").to_string()
    );
}

#[test]
fn fresh_ids_are_uuids_in_canonical_form() {
    let thread = ThreadId::new();
    let parsed = Uuid::parse_str(thread.as_str()).unwrap();
    assert_eq!(parsed.to_string(), thread.as_str());
    assert_eq!(parsed.get_version_num(), 4);
    assert_eq!(parsed.get_variant(), uuid::Variant::RFC4122);
    assert_eq!(parsed.as_u128() >> 76 & 0xf, 4);
    assert_eq!(parsed.as_u128() >> 62 & 0x3, 2);
    assert_ne!(ThreadId::default(), thread);
}

#[test]
fn the_text_of_a_message_id_is_its_uuid() {
    let id = MessageId {
        value: 0x6ba7b810_9dad_11d1_80b4_00c04fd430c8,
    };
    assert_eq!(id.to_text(), "6ba7b810-9dad-11d1-80b4-00c04fd430c8");
    assert_eq!(id.to_text(), Uuid::from_u128(id.value).to_string());
    assert_ne!(MessageId::new(), MessageId::new());
}

#[test]
fn a_turn_carries_the_identity_of_the_message_that_opens_it() {
    let id = MessageId::new();
    assert_eq!(TurnId::from(id).value, id.value);
}

#[test]
fn time_starts_at_zero_and_is_later_now() {
    assert_eq!(Timestamp::default().nanoseconds, 0);
    assert!(Timestamp::now().nanoseconds > 1_600_000_000_000_000_000);
    assert_eq!(jiff::Timestamp::MIN.as_nanosecond(), -377_705_023_201_000_000_000);
    assert_eq!(jiff::Timestamp::MAX.as_nanosecond(), 253_402_207_200_999_999_999);
}

#[test]
fn a_call_is_named_after_the_message_that_asks_for_it() {
    let one = MessageOrigin {
        message_id: MessageId { value: 1 },
        call_id: "call".to_string(),
    };
    let other = MessageOrigin {
        message_id: MessageId { value: 2 },
        call_id: "call".to_string(),
    };
    assert_eq!(
        one.derivation_key(),
        "00000000-0000-0000-0000-000000000001:call"
    );
    assert_ne!(one.derivation_key(), other.derivation_key());
}
