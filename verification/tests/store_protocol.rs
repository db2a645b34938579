use hub_store::managers::database_manager::{DataBaseManager, Request};
use hub_store::managers::error::ServerError;
use hub_store::managers::service_manager::Transport;

fn answer(manager: &mut DataBaseManager, message: &str) -> Result<String, ServerError> {
    match manager.process_message(message, "test-connection") {
        Request::Answer(r) => r,
        other => panic!("expected an answer, got {:?}", other),
    }
}

fn ok(text: &str) -> Result<String, ServerError> {
    Ok(text.to_string())
}

fn opened(manager: &mut DataBaseManager, path: &str) {
    match manager.process_message(&format!("OPEN {}", path), "test-connection") {
        Request::Open { path: asked, .. } => {
            assert_eq!(asked, path);
            assert_eq!(manager.opened(path, true), ok(&format!("opened file {}", path)));
        }
        other => panic!("expected a request to open, got {:?}", other),
    }
}

#[test]
fn new_greets() {
    let mut db = DataBaseManager::new();
    assert_eq!(answer(&mut db, "NEW"), ok("New connection to this db"));
    assert_eq!(answer(&mut db, "NEW user password"), ok("New connection to this db"));
}

#[test]
fn a_new_store_is_empty() {
    let db = DataBaseManager::new();
    assert_eq!(db.store_size(), 0);
}

#[test]
fn store_size_counts_top_level_entries() {
    let mut db = DataBaseManager::new();
    assert_eq!(answer(&mut db, "INS x 5"), ok("5"));
    assert_eq!(answer(&mut db, "INS y {\"a\":{\"b\":1}}"), ok("{\"a\":{\"b\":1}}"));
    assert_eq!(answer(&mut db, "INS x 6"), ok("6"));
    assert_eq!(db.store_size(), 2);
    assert_eq!(answer(&mut db, "DEL x"), ok("6"));
    assert_eq!(db.store_size(), 1);
}

#[test]
fn insert_then_find_returns_the_value() {
    let mut db = DataBaseManager::new();
    assert_eq!(answer(&mut db, "INS x 5"), ok("5"));
    assert_eq!(answer(&mut db, "FND x"), ok("5"));
    assert_eq!(answer(&mut db, "INS s \"hello\""), ok("\"hello\""));
    assert_eq!(answer(&mut db, "FND s"), ok("\"hello\""));
    assert_eq!(answer(&mut db, "INS l [1,2,{\"k\":null}]"), ok("[1,2,{\"k\":null}]"));
    assert_eq!(answer(&mut db, "FND l"), ok("[1,2,{\"k\":null}]"));
}

#[test]
fn insert_echoes_the_text_and_find_normalises_it() {
    let mut db = DataBaseManager::new();
    assert_eq!(answer(&mut db, "INS o {\"b\":1,\"a\":2.50}"), ok("{\"b\":1,\"a\":2.50}"));
    assert_eq!(answer(&mut db, "FND o"), ok("{\"a\":2.5,\"b\":1}"));
}

#[test]
fn string_over_integer_is_refused_and_the_integer_stays() {
    let mut db = DataBaseManager::new();
    assert_eq!(answer(&mut db, "INS x 5"), ok("5"));
    assert_eq!(
        answer(&mut db, "INS x \"hello\""),
        Err(ServerError::INCOMPATIBLE_DATA_TYPES)
    );
    assert_eq!(answer(&mut db, "FND x"), ok("5"));
}

#[test]
fn a_value_of_the_same_tag_replaces() {
    let mut db = DataBaseManager::new();
    assert_eq!(answer(&mut db, "INS x 5"), ok("5"));
    assert_eq!(answer(&mut db, "INS x -7"), ok("-7"));
    assert_eq!(answer(&mut db, "FND x"), ok("-7"));
    assert_eq!(answer(&mut db, "INS b true"), ok("true"));
    assert_eq!(answer(&mut db, "INS b false"), ok("false"));
    assert_eq!(answer(&mut db, "FND b"), ok("false"));
    assert_eq!(answer(&mut db, "INS o {}"), ok("{}"));
    assert_eq!(answer(&mut db, "INS o {\"k\":1}"), ok("{\"k\":1}"));
    assert_eq!(answer(&mut db, "FND o"), ok("{\"k\":1}"));
}

#[test]
fn the_kinds_of_number_do_not_replace_each_other() {
    let mut db = DataBaseManager::new();
    assert_eq!(answer(&mut db, "INS x 5"), ok("5"));
    assert_eq!(answer(&mut db, "INS x 1.5"), Err(ServerError::INCOMPATIBLE_DATA_TYPES));
    assert_eq!(
        answer(&mut db, "INS x 18446744073709551615"),
        Err(ServerError::INCOMPATIBLE_DATA_TYPES)
    );
    assert_eq!(answer(&mut db, "FND x"), ok("5"));
    assert_eq!(answer(&mut db, "INS f 1.5"), ok("1.5"));
    assert_eq!(answer(&mut db, "INS f 2"), Err(ServerError::INCOMPATIBLE_DATA_TYPES));
    assert_eq!(answer(&mut db, "INS f 2.0"), ok("2.0"));
    assert_eq!(answer(&mut db, "FND f"), ok("2.0"));
    assert_eq!(answer(&mut db, "INS u 18446744073709551615"), ok("18446744073709551615"));
    assert_eq!(answer(&mut db, "INS u 9223372036854775808"), ok("9223372036854775808"));
    assert_eq!(answer(&mut db, "INS u 9223372036854775807"), Err(ServerError::INCOMPATIBLE_DATA_TYPES));
}

#[test]
fn null_is_never_replaced() {
    let mut db = DataBaseManager::new();
    assert_eq!(answer(&mut db, "INS n null"), ok("null"));
    assert_eq!(answer(&mut db, "INS n null"), Err(ServerError::INCOMPATIBLE_DATA_TYPES));
    assert_eq!(answer(&mut db, "INS n 1"), Err(ServerError::INCOMPATIBLE_DATA_TYPES));
    assert_eq!(answer(&mut db, "FND n"), ok("null"));
}

#[test]
fn find_of_an_absent_key_is_null() {
    let mut db = DataBaseManager::new();
    assert_eq!(answer(&mut db, "FND nothing"), ok("null"));
}

#[test]
fn find_without_a_key_looks_for_the_word_error() {
    let mut db = DataBaseManager::new();
    assert_eq!(answer(&mut db, "FND"), ok("null"));
    assert_eq!(answer(&mut db, "INS Error 1"), ok("1"));
    assert_eq!(answer(&mut db, "FND"), ok("1"));
}

#[test]
fn nested_find_follows_the_path() {
    let mut db = DataBaseManager::new();
    assert_eq!(answer(&mut db, "INS a {\"b\":{\"c\":[1,2]},\"d\":5}"), ok("{\"b\":{\"c\":[1,2]},\"d\":5}"));
    assert_eq!(answer(&mut db, "FND a.b"), ok("{\"c\":[1,2]}"));
    assert_eq!(answer(&mut db, "FND a.b.c"), ok("[1,2]"));
    assert_eq!(answer(&mut db, "FND a.d"), ok("5"));
}

#[test]
fn nested_find_of_a_missing_leaf_is_null() {
    let mut db = DataBaseManager::new();
    assert_eq!(answer(&mut db, "INS a {\"c\":1}"), ok("{\"c\":1}"));
    assert_eq!(answer(&mut db, "FND a.b"), ok("null"));
    assert_eq!(answer(&mut db, "FND a.c.x"), ok("null"));
}

#[test]
fn nested_find_fails_on_a_missing_parent() {
    let mut db = DataBaseManager::new();
    assert_eq!(answer(&mut db, "INS a {\"c\":1}"), ok("{\"c\":1}"));
    assert_eq!(answer(&mut db, "FND z.b"), Err(ServerError::MISSING_DATA));
    assert_eq!(answer(&mut db, "FND a.b.d"), Err(ServerError::INVALID_JSON));
    assert_eq!(answer(&mut db, "FND a.c.x.y"), Err(ServerError::INVALID_JSON));
}

#[test]
fn nested_insert_adds_and_replaces_fields() {
    let mut db = DataBaseManager::new();
    assert_eq!(answer(&mut db, "INS a {\"b\":1}"), ok("{\"b\":1}"));
    assert_eq!(answer(&mut db, "INS a.c \"new\""), ok("\"new\""));
    assert_eq!(answer(&mut db, "INS a.b 2"), ok("2"));
    assert_eq!(answer(&mut db, "FND a"), ok("{\"b\":2,\"c\":\"new\"}"));
    assert_eq!(answer(&mut db, "INS a.o {}"), ok("{}"));
    assert_eq!(answer(&mut db, "INS a.o.deep true"), ok("true"));
    assert_eq!(answer(&mut db, "FND a.o.deep"), ok("true"));
}

#[test]
fn nested_insert_needs_its_parent() {
    let mut db = DataBaseManager::new();
    assert_eq!(answer(&mut db, "INS a.b 1"), Err(ServerError::MISSING_DATA));
    assert_eq!(answer(&mut db, "INS x 5"), ok("5"));
    assert_eq!(answer(&mut db, "INS x.b 1"), Err(ServerError::INVALID_JSON));
    assert_eq!(answer(&mut db, "INS o {\"n\":5}"), ok("{\"n\":5}"));
    assert_eq!(answer(&mut db, "INS o.m.k 1"), Err(ServerError::INVALID_ARG));
    assert_eq!(answer(&mut db, "INS o.n.k 1"), Err(ServerError::INVALID_JSON));
    assert_eq!(answer(&mut db, "FND x"), ok("5"));
    assert_eq!(answer(&mut db, "FND o"), ok("{\"n\":5}"));
}

#[test]
fn nested_insert_keeps_the_overwrite_rule() {
    let mut db = DataBaseManager::new();
    assert_eq!(answer(&mut db, "INS a {\"b\":1}"), ok("{\"b\":1}"));
    assert_eq!(answer(&mut db, "INS a.b \"text\""), Err(ServerError::INCOMPATIBLE_DATA_TYPES));
    assert_eq!(answer(&mut db, "FND a.b"), ok("1"));
}

#[test]
fn insert_of_text_that_is_no_json_fails_to_read() {
    let mut db = DataBaseManager::new();
    assert_eq!(answer(&mut db, "INS x {broken"), Err(ServerError::FAILED_READ));
    assert_eq!(answer(&mut db, "INS x"), Err(ServerError::FAILED_READ));
    assert_eq!(answer(&mut db, "INS"), Err(ServerError::FAILED_READ));
    assert_eq!(answer(&mut db, "INS x {\"b\": 1}"), Err(ServerError::FAILED_READ));
    assert_eq!(db.store_size(), 0);
}

#[test]
fn deleting_twice_fails_the_second_time() {
    let mut db = DataBaseManager::new();
    assert_eq!(answer(&mut db, "INS x 5"), ok("5"));
    assert_eq!(answer(&mut db, "DEL x"), ok("5"));
    assert_eq!(answer(&mut db, "DEL x"), Err(ServerError::INVALID_DATA));
    assert_eq!(answer(&mut db, "FND x"), ok("null"));
}

#[test]
fn nested_delete_returns_the_field() {
    let mut db = DataBaseManager::new();
    assert_eq!(answer(&mut db, "INS a {\"b\":{\"c\":1},\"d\":2}"), ok("{\"b\":{\"c\":1},\"d\":2}"));
    assert_eq!(answer(&mut db, "DEL a.b.c"), ok("1"));
    assert_eq!(answer(&mut db, "FND a"), ok("{\"b\":{},\"d\":2}"));
    assert_eq!(answer(&mut db, "DEL a.b"), ok("{}"));
    assert_eq!(answer(&mut db, "FND a"), ok("{\"d\":2}"));
}

#[test]
fn nested_delete_of_a_missing_leaf_is_not_found() {
    let mut db = DataBaseManager::new();
    assert_eq!(answer(&mut db, "INS a {\"b\":{\"c\":1}}"), ok("{\"b\":{\"c\":1}}"));
    assert_eq!(answer(&mut db, "DEL a.x"), ok("NOT_FOUND"));
    assert_eq!(answer(&mut db, "DEL a.b.x"), ok("NOT_FOUND"));
    assert_eq!(answer(&mut db, "DEL a.b.c.x"), ok("NOT_FOUND"));
    assert_eq!(answer(&mut db, "FND a"), ok("{\"b\":{\"c\":1}}"));
}

#[test]
fn nested_delete_fails_on_a_missing_parent() {
    let mut db = DataBaseManager::new();
    assert_eq!(answer(&mut db, "INS a {\"b\":{\"c\":1}}"), ok("{\"b\":{\"c\":1}}"));
    assert_eq!(answer(&mut db, "DEL z.b"), Err(ServerError::MISSING_DATA));
    assert_eq!(answer(&mut db, "DEL a.x.y"), Err(ServerError::INVALID_JSON));
    assert_eq!(answer(&mut db, "DEL a.b.c.x.y"), Err(ServerError::INVALID_JSON));
    assert_eq!(answer(&mut db, "FND a"), ok("{\"b\":{\"c\":1}}"));
}

#[test]
fn empty_segments_are_keys_too() {
    let mut db = DataBaseManager::new();
    assert_eq!(answer(&mut db, "INS a {\"\":1}"), ok("{\"\":1}"));
    assert_eq!(answer(&mut db, "FND a."), ok("1"));
    assert_eq!(answer(&mut db, "DEL a."), ok("1"));
    assert_eq!(answer(&mut db, "FND a"), ok("{}"));
}

#[test]
fn unknown_verbs_are_invalid_arguments() {
    let mut db = DataBaseManager::new();
    assert_eq!(answer(&mut db, "WHAT x"), Err(ServerError::INVALID_ARG));
    assert_eq!(answer(&mut db, ""), Err(ServerError::INVALID_ARG));
    assert_eq!(answer(&mut db, "fnd x"), Err(ServerError::INVALID_ARG));
    assert_eq!(answer(&mut db, " FND x"), Err(ServerError::INVALID_ARG));
}

#[test]
fn open_asks_for_the_file() {
    let mut db = DataBaseManager::new();
    match db.process_message("OPEN data.json", "id") {
        Request::Open { path, directory } => {
            assert_eq!(path, "data.json");
            assert_eq!(directory, None);
        }
        other => panic!("unexpected {:?}", other),
    }
    match db.process_message("OPEN store/today/data.json", "id") {
        Request::Open { path, directory } => {
            assert_eq!(path, "store/today/data.json");
            assert_eq!(directory, Some("store/today/".to_string()));
        }
        other => panic!("unexpected {:?}", other),
    }
    match db.process_message("OPEN ./data.json", "id") {
        Request::Open { path, directory } => {
            assert_eq!(path, "./data.json");
            assert_eq!(directory, None);
        }
        other => panic!("unexpected {:?}", other),
    }
}

#[test]
fn open_refuses_a_path_without_the_suffix() {
    let mut db = DataBaseManager::new();
    assert_eq!(answer(&mut db, "OPEN data.txt"), Err(ServerError::INVALID_FILE));
    assert_eq!(answer(&mut db, "OPEN"), Err(ServerError::INVALID_FILE));
    assert_eq!(db.open("dir/data.jso").err(), Some(ServerError::INVALID_FILE));
}

#[test]
fn open_plans_the_directory() {
    let db = DataBaseManager::new();
    let plan = db.open("a/b.json/c/d.json").unwrap();
    assert_eq!(plan.path, "a/b.json/c/d.json");
    assert_eq!(plan.directory, Some("a/c/".to_string()));
    let plan = db.open("/abs/data.json").unwrap();
    assert_eq!(plan.directory, Some("/abs/".to_string()));
    let plan = db.open("x.json").unwrap();
    assert_eq!(plan.directory, None);
}

#[test]
fn a_file_that_could_not_be_opened_is_invalid() {
    let mut db = DataBaseManager::new();
    assert_eq!(db.opened("data.json", false), Err(ServerError::INVALID_FILE));
    assert_eq!(answer(&mut db, "SAVE"), ok("No file open to save to"));
}

#[test]
fn load_without_a_file_says_so() {
    let mut db = DataBaseManager::new();
    assert_eq!(
        answer(&mut db, "LOAD"),
        ok("There is no file to load from, please open one with OPEN")
    );
    assert_eq!(db.load_from_file(Some("{}")), Err(ServerError::INVALID_FILE));
    assert_eq!(db.loaded(Some("{}")), Err(ServerError::INVALID_FILE));
}

#[test]
fn load_merges_the_file_into_the_store() {
    let mut db = DataBaseManager::new();
    opened(&mut db, "data.json");
    assert_eq!(answer(&mut db, "INS x 5"), ok("5"));
    assert!(matches!(db.process_message("LOAD", "id"), Request::Load));
    assert_eq!(
        db.loaded(Some("{\"x\":\"text\",\"y\":2,\"z\":{\"k\":true}}")),
        ok("loaded file successfully")
    );
    assert_eq!(answer(&mut db, "FND x"), ok("5"));
    assert_eq!(answer(&mut db, "FND y"), ok("2"));
    assert_eq!(answer(&mut db, "FND z.k"), ok("true"));
    assert_eq!(db.store_size(), 3);
}

#[test]
fn load_inserts_dotted_keys_as_paths() {
    let mut db = DataBaseManager::new();
    opened(&mut db, "data.json");
    assert_eq!(db.load_from_file(Some("{\"a\":{},\"a.b\":1,\"q.r\":2}")), Ok(()));
    assert_eq!(answer(&mut db, "FND a"), ok("{\"b\":1}"));
    assert_eq!(db.store_size(), 1);
}

#[test]
fn load_merges_in_the_order_of_the_keys() {
    let mut db = DataBaseManager::new();
    opened(&mut db, "data.json");
    assert_eq!(db.load_from_file(Some("{\"b.c\":1,\"b\":{},\"a.z\":2,\"B\":{},\"B.x\":3}")), Ok(()));
    assert_eq!(db.save_store(), Some("{\"B\":{\"x\":3},\"b\":{\"c\":1}}".to_string()));
    assert_eq!(db.store_size(), 2);
}

#[test]
fn load_refuses_what_is_no_json_object() {
    let mut db = DataBaseManager::new();
    opened(&mut db, "data.json");
    assert_eq!(db.loaded(Some("[1,2]")), Err(ServerError::INVALID_JSON));
    assert_eq!(db.loaded(Some("7")), Err(ServerError::INVALID_JSON));
    assert_eq!(db.loaded(Some("{\"a\":")), Err(ServerError::INVALID_JSON));
    assert_eq!(db.loaded(Some("")), Err(ServerError::INVALID_JSON));
    assert_eq!(db.loaded(None), Err(ServerError::INVALID_JSON));
    assert_eq!(db.store_size(), 0);
}

#[test]
fn save_without_a_file_says_so() {
    let mut db = DataBaseManager::new();
    assert_eq!(answer(&mut db, "INS x 5"), ok("5"));
    assert_eq!(answer(&mut db, "SAVE"), ok("No file open to save to"));
    assert_eq!(db.save_store(), None);
}

#[test]
fn save_writes_the_store_as_one_object() {
    let mut db = DataBaseManager::new();
    opened(&mut db, "data.json");
    assert_eq!(answer(&mut db, "INS b [1]"), ok("[1]"));
    assert_eq!(answer(&mut db, "INS a \"x\""), ok("\"x\""));
    match db.process_message("SAVE", "id") {
        Request::Save(text) => assert_eq!(text, "{\"a\":\"x\",\"b\":[1]}"),
        other => panic!("unexpected {:?}", other),
    }
    assert_eq!(DataBaseManager::saved(true), ok("Saved to file"));
    assert_eq!(DataBaseManager::saved(false), Err(ServerError::INVALID_JSON));
}

#[test]
fn an_empty_store_is_saved_as_an_empty_object() {
    let mut db = DataBaseManager::new();
    opened(&mut db, "data.json");
    assert_eq!(db.save_store(), Some("{}".to_string()));
}

#[test]
fn saved_store_is_reproduced_by_a_load() {
    let mut db = DataBaseManager::new();
    opened(&mut db, "data.json");
    assert_eq!(answer(&mut db, "INS a {\"b\":1}"), ok("{\"b\":1}"));
    let written = match db.process_message("SAVE", "id") {
        Request::Save(text) => text,
        other => panic!("unexpected {:?}", other),
    };
    assert_eq!(written, "{\"a\":{\"b\":1}}");
    assert_eq!(DataBaseManager::saved(true), ok("Saved to file"));

    let mut again = DataBaseManager::new();
    opened(&mut again, "data.json");
    assert!(matches!(again.process_message("LOAD", "id"), Request::Load));
    assert_eq!(again.loaded(Some(&written)), ok("loaded file successfully"));
    assert_eq!(again.save_store(), Some(written));
    assert_eq!(answer(&mut again, "FND a.b"), ok("1"));
}

#[test]
fn a_store_of_many_kinds_survives_save_and_load() {
    let mut db = DataBaseManager::new();
    opened(&mut db, "data.json");
    assert_eq!(answer(&mut db, "INS z [1,\"two\",{\"three\":3.5}]"), ok("[1,\"two\",{\"three\":3.5}]"));
    assert_eq!(answer(&mut db, "INS a {\"n\":null,\"o\":{\"p\":true}}"), ok("{\"n\":null,\"o\":{\"p\":true}}"));
    assert_eq!(answer(&mut db, "INS m -12"), ok("-12"));
    assert_eq!(answer(&mut db, "INS big 18446744073709551615"), ok("18446744073709551615"));
    let written = db.save_store().expect("a file is bound");

    let mut again = DataBaseManager::new();
    opened(&mut again, "data.json");
    assert_eq!(again.loaded(Some(&written)), ok("loaded file successfully"));
    assert_eq!(again.save_store(), Some(written));
    assert_eq!(again.store_size(), 4);
    assert_eq!(answer(&mut again, "FND a.o.p"), ok("true"));
    assert_eq!(answer(&mut again, "FND big"), ok("18446744073709551615"));
}

#[test]
fn the_store_answers_over_tcp_alone() {
    assert_eq!(DataBaseManager::send(Transport::Tcp, true), Ok(()));
    assert_eq!(DataBaseManager::send(Transport::Tcp, false), Err(ServerError::NO_VALUE));
    assert_eq!(DataBaseManager::send(Transport::WebSocket, true), Err(ServerError::INVALID_ARG));
    assert_eq!(DataBaseManager::send(Transport::WebSocket, false), Err(ServerError::INVALID_ARG));
}
