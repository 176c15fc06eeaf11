use recognition_bot::storage::{Error, Storage};

fn load(text: &str) -> Storage {
    match Storage::db_from_string(text) {
        Ok(s) => s,
        Err(e) => panic!("unexpected error {:?}", e),
    }
}

#[test]
fn put_then_get_returns_written_code() {
    let mut store = Storage::empty();
    store.put(42, "en-US".to_string());
    assert_eq!(store.get(42), Some("en-US".to_string()));
    store.put(42, "de-DE".to_string());
    assert_eq!(store.get(42), Some("de-DE".to_string()));
    assert_eq!(store.get(43), None);
}

#[test]
fn text_round_trip_keeps_every_record() {
    let mut store = Storage::empty();
    store.put(1, "ru-RU".to_string());
    store.put(-7, "en-US".to_string());
    store.put(i64::MAX, "uk-UA".to_string());
    store.put(i64::MIN, "de-DE".to_string());
    let text = store.db_to_string();
    let back = load(&text);
    for id in [1i64, -7, i64::MAX, i64::MIN, 5] {
        assert_eq!(back.get(id), store.get(id));
    }
    assert_eq!(back.db_to_string(), text);
}

#[test]
fn text_form_is_one_line_per_record() {
    let mut store = Storage::empty();
    store.put(12, "ru-RU".to_string());
    store.put(-3, "en-US".to_string());
    assert_eq!(store.db_to_string(), "12 ru-RU\n-3 en-US\n");
    assert_eq!(Storage::empty().db_to_string(), "");
}

#[test]
fn puts_in_sequence_all_visible() {
    let mut store = Storage::empty();
    for id in 0..50i64 {
        store.put(id, format!("code-{}", id));
    }
    for id in 0..50i64 {
        assert_eq!(store.get(id), Some(format!("code-{}", id)));
    }
    store.put(9, "a".to_string());
    store.put(9, "b".to_string());
    assert_eq!(store.get(9), Some("b".to_string()));
}

#[test]
fn shared_store_under_lock_keeps_each_write() {
    let store = std::sync::Arc::new(std::sync::RwLock::new(Storage::empty()));
    let writers: Vec<_> = (0..8i64).map(|_| store.clone()).collect();
    for (id, s) in writers.iter().enumerate() {
        s.write().unwrap().put(id as i64, format!("lang-{}", id));
        s.write().unwrap().put(100, format!("same-{}", id));
    }
    let guard = store.read().unwrap();
    for id in 0..8i64 {
        assert_eq!(guard.get(id), Some(format!("lang-{}", id)));
    }
    let winner = guard.get(100).unwrap();
    assert!((0..8).any(|id| winner == format!("same-{}", id)));
}

#[test]
fn missing_file_gives_empty_store() {
    let store = match Storage::new(None) {
        Ok(s) => s,
        Err(e) => panic!("unexpected error {:?}", e),
    };
    assert_eq!(store.get(0), None);
    assert_eq!(store.get(42), None);
    assert_eq!(store.db_to_string(), "");
}

#[test]
fn existing_file_is_parsed() {
    let store = match Storage::new(Some("5 en-US\n")) {
        Ok(s) => s,
        Err(e) => panic!("unexpected error {:?}", e),
    };
    assert_eq!(store.get(5), Some("en-US".to_string()));
}

#[test]
fn parsing_skips_empty_lines_and_later_line_wins() {
    let store = load("\n1 ru-RU\n\n1 en-US\n2 de-DE");
    assert_eq!(store.get(1), Some("en-US".to_string()));
    assert_eq!(store.get(2), Some("de-DE".to_string()));
    assert_eq!(load("").get(1), None);
}

#[test]
fn code_is_everything_after_first_space() {
    let store = load("+8 a b\n-9 \n");
    assert_eq!(store.get(8), Some("a b".to_string()));
    assert_eq!(store.get(-9), Some("".to_string()));
}

#[test]
fn malformed_line_is_an_error() {
    assert_eq!(Storage::db_from_string("1 ru-RU\nnonsense\n").err(), Some(Error::MalformedLine { line: 2 }));
    assert_eq!(Storage::db_from_string("x1 ru-RU").err(), Some(Error::MalformedLine { line: 1 }));
    assert_eq!(Storage::db_from_string("\n\n 1 ru").err(), Some(Error::MalformedLine { line: 3 }));
    assert_eq!(
        Storage::db_from_string("9223372036854775808 ru").err(),
        Some(Error::MalformedLine { line: 1 })
    );
    assert_eq!(Storage::new(Some("12\n")).err(), Some(Error::MalformedLine { line: 1 }));
}

#[test]
fn errors_describe_themselves() {
    assert_eq!(Error::MalformedLine { line: 17 }.describe(), "Malformed preference line 17");
    assert_eq!(Error::IoError("denied".to_string()).describe(), "Io error: denied");
}
