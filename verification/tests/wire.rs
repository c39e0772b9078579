use faas_core::types::{BlobAddress, Id, TimeStamp};
use faas_core::catalog::{Function, FunctionId, InputKind, PathEntry, Root, SubPath};
use faas_core::wire::{decode_entries, encode_entries};

fn sample_entries() -> Vec<PathEntry> {
    let add = Function::new(
        FunctionId(Id { value: 7 }),
        "add".to_string(),
        "adds two numbers".to_string(),
        TimeStamp::from_secs(1_700_000_000),
        InputKind::List(Box::new(InputKind::Number)),
        BlobAddress { location: "blobs/add.wasm".to_string() },
    );
    let hello = Function::new(
        FunctionId(Id { value: 8 }),
        "hello".to_string(),
        String::new(),
        TimeStamp::from_secs(0),
        InputKind::Nothing,
        BlobAddress { location: "blobs/hello.wasm".to_string() },
    );
    vec![
        PathEntry::new(Root("api".to_string()), SubPath("add".to_string()), add),
        PathEntry::new(Root("api".to_string()), SubPath("hello".to_string()), hello),
    ]
}

#[test]
fn routing_table_round_trips() {
    let entries = sample_entries();
    let text = encode_entries(&entries);
    let back = decode_entries(&text).unwrap();
    assert_eq!(back.len(), entries.len());
    for (a, b) in entries.iter().zip(back.iter()) {
        assert_eq!(a.root().0, b.root().0);
        assert_eq!(a.sub_path().0, b.sub_path().0);
        assert_eq!(a.function().id, b.function().id);
        assert_eq!(a.function().name, b.function().name);
        assert_eq!(a.function().description, b.function().description);
        assert_eq!(a.function().create_time, b.function().create_time);
        assert_eq!(a.function().blob_address, b.function().blob_address);
    }
}

#[test]
fn empty_table_round_trips() {
    let entries: Vec<PathEntry> = Vec::new();
    let text = encode_entries(&entries);
    assert_eq!(text, "00000000000000000000");
    let back = decode_entries(&text).unwrap();
    assert!(back.is_empty());
}

#[test]
fn truncated_or_padded_text_is_rejected() {
    let entries = sample_entries();
    let mut text = encode_entries(&entries);
    let whole = decode_entries(&text);
    assert!(whole.is_some());
    text.pop();
    assert!(decode_entries(&text).is_none());
    let mut padded = encode_entries(&entries);
    padded.push('x');
    assert!(decode_entries(&padded).is_none());
    assert!(decode_entries("junk").is_none());
}
