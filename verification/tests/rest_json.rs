use task_manager::rest::json::{add_member, integer, JsonNumber, JsonValue};

fn keys(members: &[(String, JsonValue)]) -> Vec<&str> {
    members.iter().map(|(key, _)| key.as_str()).collect()
}

#[test]
fn members_are_kept_in_key_order_and_duplicates_rejected() {
    let mut members: Vec<(String, JsonValue)> = Vec::new();
    for key in ["title", "completed", "id", "Zed", "é", "ti"] {
        add_member(&mut members, String::from(key), JsonValue::Null).expect("new key");
    }
    assert_eq!(keys(&members), vec!["Zed", "completed", "id", "ti", "title", "é"]);

    let duplicate = add_member(&mut members, String::from("id"), JsonValue::Bool(true));
    assert!(duplicate.is_err());
    assert_eq!(keys(&members), vec!["Zed", "completed", "id", "ti", "title", "é"]);
    assert_eq!(members[2].1, JsonValue::Null);
}

#[test]
fn integers_split_by_sign() {
    assert_eq!(integer(0), JsonNumber::PosInt(0));
    assert_eq!(integer(i64::MAX), JsonNumber::PosInt(9223372036854775807));
    assert_eq!(integer(-1), JsonNumber::NegInt(-1));
    assert_eq!(integer(i64::MIN), JsonNumber::NegInt(i64::MIN));
}
