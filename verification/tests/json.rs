use solana_arb_executor::json::Json;

fn object(fields: Vec<(&str, Json)>) -> Json {
    Json::Object(fields.into_iter().map(|(k, v)| (String::from(k), v)).collect())
}

#[test]
fn pointer_walks_objects_and_arrays() {
    let doc = object(vec![(
        "result",
        object(vec![(
            "value",
            Json::Array(vec![object(vec![("status", Json::Text(String::from("Landed")))])]),
        )]),
    )]);
    let found = doc.pointer(&["result", "value", "0", "status"]);
    assert_eq!(found.and_then(|v| v.as_text()), Some(&String::from("Landed")));
    assert_eq!(doc.pointer(&["result", "value", "1", "status"]), None);
    assert_eq!(doc.pointer(&["result", "value", "00", "status"]), None);
    assert_eq!(doc.pointer(&["result", "value", "+0", "status"]), None);
    assert_eq!(doc.pointer(&["result", "value", "x", "status"]), None);
    assert_eq!(doc.pointer(&["nothing"]), None);
    assert_eq!(doc.pointer(&[]), Some(&doc));
}

#[test]
fn get_and_as_text() {
    let doc = object(vec![("a", Json::Null), ("b", Json::Text(String::from("t")))]);
    assert_eq!(doc.get("a"), Some(&Json::Null));
    assert_eq!(doc.get("b").and_then(|v| v.as_text()), Some(&String::from("t")));
    assert_eq!(doc.get("c"), None);
    assert_eq!(Json::Bool(true).as_text(), None);
    assert_eq!(Json::Null.get("a"), None);
}
