use har_strip::{
    empty_archive, emit_har, parse_har, parse_json, process_file, sanitize_document,
    strip_auth_headers, to_pretty_text, HarError, ParseFailure,
};
use serde_json::Value;

fn tree(text: &str) -> Value {
    serde_json::from_str(text).unwrap()
}

fn run(text: &str) -> Value {
    let r = process_file(text);
    assert!(r.failure.is_none());
    tree(&r.output.unwrap())
}

fn headers(doc: &Value, entry: usize) -> Vec<(String, String)> {
    doc["log"]["entries"][entry]["request"]["headers"]
        .as_array()
        .unwrap()
        .iter()
        .map(|h| (h["name"].as_str().unwrap().to_string(), h["value"].as_str().unwrap().to_string()))
        .collect()
}

fn pair(n: &str, v: &str) -> (String, String) {
    (n.to_string(), v.to_string())
}

fn shape_error(text: &str) -> Option<HarError> {
    let (_, e) = sanitize_document(parse_json(text).unwrap());
    e
}

const S1: &str = r#"{"log":{"version":"1.2","creator":{"name":"x","version":"1"},"entries":[{"startedDateTime":"2024-01-01T00:00:00Z","request":{"method":"GET","url":"http://a","headers":[{"name":"authorization","value":"Bearer t"},{"name":"accept","value":"*/*"}]}}]}}"#;

#[test]
fn single_header_removal() {
    let out = run(S1);
    assert_eq!(headers(&out, 0), vec![pair("accept", "*/*")]);
    let entry = &out["log"]["entries"][0];
    assert_eq!(entry["request"]["method"], Value::String("GET".to_string()));
    assert_eq!(entry["request"]["url"], Value::String("http://a".to_string()));
    assert_eq!(entry["startedDateTime"], Value::String("2024-01-01T00:00:00Z".to_string()));
    assert_eq!(out["log"]["creator"], tree(r#"{"name":"x","version":"1"}"#));
    assert_eq!(out["log"]["entries"].as_array().unwrap().len(), 1);
}

#[test]
fn multiple_entries_multiple_auth_headers() {
    let text = r#"{"log":{"version":"1.2","creator":{},"entries":[
        {"request":{"headers":[{"name":"authorization","value":"a"},{"name":"cookie","value":"c1"},{"name":"authorization","value":"b"}]}},
        {"request":{"headers":[{"name":"authorization","value":"d"},{"name":"authorization","value":"e"},{"name":"cookie","value":"c2"}]}}
    ]}}"#;
    let out = run(text);
    assert_eq!(headers(&out, 0), vec![pair("cookie", "c1")]);
    assert_eq!(headers(&out, 1), vec![pair("cookie", "c2")]);
}

#[test]
fn case_discrimination() {
    let text = r#"{"log":{"version":"1.2","creator":{},"entries":[{"request":{"headers":[{"name":"Authorization","value":"X"},{"name":"authorization","value":"Y"}]}}]}}"#;
    let out = run(text);
    assert_eq!(headers(&out, 0), vec![pair("Authorization", "X")]);
}

#[test]
fn other_spellings_are_kept() {
    let text = r#"{"log":{"version":"1.2","creator":{},"entries":[{"request":{"headers":[{"name":"Authorization","value":"1"},{"name":"AUTHORIZATION","value":"2"},{"name":" authorization","value":"3"},{"name":"authorization ","value":"4"},{"name":"Proxy-Authorization","value":"5"}]}}]}}"#;
    let out = run(text);
    assert_eq!(
        headers(&out, 0),
        vec![
            pair("Authorization", "1"),
            pair("AUTHORIZATION", "2"),
            pair(" authorization", "3"),
            pair("authorization ", "4"),
            pair("Proxy-Authorization", "5"),
        ]
    );
}

#[test]
fn unknown_fields_preserved() {
    let text = r#"{"log":{"version":"1.2","creator":{},"comment":"kept","entries":[{"_custom":{"a":[1,2,{"b":null}]},"request":{"postData":{"mimeType":"text/plain","text":"secret"},"headers":[{"name":"x","value":"y","comment":"c"}]}}]}}"#;
    let out = run(text);
    assert_eq!(out, tree(text));
    assert_eq!(out["log"]["comment"], Value::String("kept".to_string()));
    assert_eq!(out["log"]["entries"][0]["_custom"], tree(r#"{"a":[1,2,{"b":null}]}"#));
    assert_eq!(out["log"]["entries"][0]["request"]["postData"]["text"], Value::String("secret".to_string()));
}

#[test]
fn empty_entries_list() {
    let text = r#"{"log":{"version":"1.2","creator":{},"entries":[]}}"#;
    assert_eq!(run(text), tree(text));
}

#[test]
fn malformed_input() {
    let r = process_file("not json");
    assert!(matches!(r.failure, Some(ParseFailure::Syntax(_))));
    assert_eq!(tree(&r.output.unwrap()), tree(r#"{"log":{"version":"","creator":{},"entries":[]}}"#));
}

#[test]
fn wrong_shape_gives_empty_archive() {
    let r = process_file(r#"{"log":{"version":"1.2","creator":{},"entries":{}}}"#);
    assert!(matches!(r.failure, Some(ParseFailure::Shape(HarError::EntriesNotArray))));
    assert_eq!(tree(&r.output.unwrap()), tree(r#"{"log":{"version":"","creator":{},"entries":[]}}"#));
}

#[test]
fn processing_twice_changes_nothing_more() {
    let once = process_file(S1).output.unwrap();
    let twice = process_file(&once).output.unwrap();
    assert_eq!(tree(&once), tree(&twice));
    assert_eq!(once, twice);
}

#[test]
fn entry_and_header_order_kept() {
    let text = r#"{"log":{"version":"1.2","creator":{},"entries":[
        {"id":1,"request":{"headers":[{"name":"a","value":"1"},{"name":"authorization","value":"t"},{"name":"b","value":"2"},{"name":"c","value":"3"}]}},
        {"id":2,"request":{"headers":[]}},
        {"id":3,"request":{"headers":[{"name":"c","value":"3"},{"name":"a","value":"1"}]}}
    ]}}"#;
    let out = run(text);
    let ids: Vec<i64> = out["log"]["entries"].as_array().unwrap().iter().map(|e| e["id"].as_i64().unwrap()).collect();
    assert_eq!(ids, vec![1, 2, 3]);
    assert_eq!(headers(&out, 0), vec![pair("a", "1"), pair("b", "2"), pair("c", "3")]);
    assert!(headers(&out, 1).is_empty());
    assert_eq!(headers(&out, 2), vec![pair("c", "3"), pair("a", "1")]);
}

#[test]
fn member_order_kept_in_text() {
    let text = r#"{"zeta":true,"log":{"version":"1.2","pages":[{"id":"p"}],"creator":{},"entries":[{"request":{"url":"u","headers":[],"method":"GET"},"response":{"status":200}}]}}"#;
    let out = process_file(text).output.unwrap();
    let zeta = out.find("\"zeta\"").unwrap();
    let log = out.find("\"log\"").unwrap();
    let pages = out.find("\"pages\"").unwrap();
    let creator = out.find("\"creator\"").unwrap();
    let url = out.find("\"url\"").unwrap();
    let method = out.find("\"method\"").unwrap();
    assert!(zeta < log && pages < creator && url < method);
    assert_eq!(tree(&out), tree(text));
}

#[test]
fn output_is_pretty_printed() {
    let out = process_file(r#"{"log":{"version":"1.2","creator":{},"entries":[]}}"#).output.unwrap();
    assert_eq!(out, "{\n  \"log\": {\n    \"version\": \"1.2\",\n    \"creator\": {},\n    \"entries\": []\n  }\n}");
}

#[test]
fn each_shape_error() {
    assert_eq!(shape_error("[]"), Some(HarError::MissingLog));
    assert_eq!(shape_error(r#"{"other":1}"#), Some(HarError::MissingLog));
    assert_eq!(shape_error(r#"{"log":3}"#), Some(HarError::LogNotObject));
    assert_eq!(shape_error(r#"{"log":{"version":"1"}}"#), Some(HarError::EntriesNotArray));
    assert_eq!(shape_error(r#"{"log":{"entries":[1]}}"#), Some(HarError::EntryNotObject));
    assert_eq!(shape_error(r#"{"log":{"entries":[{}]}}"#), Some(HarError::RequestNotObject));
    assert_eq!(shape_error(r#"{"log":{"entries":[{"request":"x"}]}}"#), Some(HarError::RequestNotObject));
    assert_eq!(shape_error(r#"{"log":{"entries":[{"request":{}}]}}"#), Some(HarError::HeadersNotArray));
    assert_eq!(shape_error(r#"{"log":{"entries":[{"request":{"headers":{}}}]}}"#), Some(HarError::HeadersNotArray));
    assert_eq!(shape_error(r#"{"log":{"entries":[{"request":{"headers":[1]}}]}}"#), Some(HarError::HeaderNotObject));
    assert_eq!(shape_error(r#"{"log":{"entries":[{"request":{"headers":[{"value":"v"}]}}]}}"#), Some(HarError::HeaderNameNotString));
    assert_eq!(shape_error(r#"{"log":{"entries":[{"request":{"headers":[{"name":5,"value":"v"}]}}]}}"#), Some(HarError::HeaderNameNotString));
    assert_eq!(shape_error(r#"{"log":{"entries":[{"request":{"headers":[{"name":"n"}]}}]}}"#), Some(HarError::HeaderValueNotString));
    assert_eq!(shape_error(r#"{"log":{"entries":[]}}"#), None);
}

#[test]
fn first_failing_entry_decides_the_error() {
    let text = r#"{"log":{"entries":[{"request":{"headers":[]}},{"request":{"headers":[{"name":1}]}},5]}}"#;
    assert_eq!(shape_error(text), Some(HarError::HeaderNameNotString));
}

#[test]
fn model_round_trip_and_strip() {
    let mut h = parse_har(parse_json(S1).unwrap()).ok().unwrap();
    assert_eq!(h.log.entries.len(), 1);
    assert_eq!(h.log.entries[0].request.headers.len(), 2);
    strip_auth_headers(&mut h);
    assert_eq!(h.log.entries[0].request.headers.len(), 1);
    assert_eq!(h.log.entries[0].request.headers[0].name, "accept");
    strip_auth_headers(&mut h);
    assert_eq!(h.log.entries[0].request.headers.len(), 1);
    let text = to_pretty_text(&emit_har(h)).unwrap();
    assert_eq!(tree(&text)["log"]["entries"][0]["request"]["headers"], tree(r#"[{"name":"accept","value":"*/*"}]"#));
}

#[test]
fn parse_json_reads_text() {
    assert!(parse_json("{").is_err());
    let text = to_pretty_text(&parse_json(r#"{"a":[1,"x",null,true,2.5]}"#).unwrap()).unwrap();
    assert_eq!(tree(&text), tree(r#"{"a":[1,"x",null,true,2.5]}"#));
    assert_ne!(text, r#"{"a":[1,"x",null,true,2.5]}"#);
}

#[test]
fn empty_archive_text() {
    let text = to_pretty_text(&empty_archive()).unwrap();
    assert_eq!(text, "{\n  \"log\": {\n    \"version\": \"\",\n    \"creator\": {},\n    \"entries\": []\n  }\n}");
}

#[test]
fn output_is_the_printed_document() {
    let r = process_file(S1);
    assert_eq!(r.output.unwrap(), to_pretty_text(&r.document).unwrap());
    let bad = process_file("{\"log\":");
    assert_eq!(bad.output.unwrap(), to_pretty_text(&empty_archive()).unwrap());
}
