use file_to_map::FileToMap;

const DEFAULT: &str = "width=1920\nheight=1080\n";
const PAIR_SEP: &str = "width=1920SEPheight=1080\n";
const KEY_VAL_SEP: &str = "widthSEP1920\nheightSEP1080\n";
const SEPARATORS_CHANGE: &str = "widthSEP1920:)heightSEP1080:)heySEPhoi\n";

#[test]
fn unchanged_defaults_get() {
    let file_to_map = FileToMap::new("tests_files/default.txt").build(DEFAULT).unwrap();
    assert_eq!(file_to_map.get("width").unwrap(), "1920");
    assert_eq!(file_to_map.get("height").unwrap(), "1080");
}

#[test]
fn unchanged_defaults_index_op() {
    let file_to_map = FileToMap::new("tests_files/default.txt").build(DEFAULT).unwrap();
    assert_eq!(file_to_map["width"], "1920");
    assert_eq!(file_to_map["height"], "1080");
}

#[test]
fn change_pair_sep() {
    let file_to_map = FileToMap::new("tests_files/pair_sep.txt")
        .set_pair_separator("SEP")
        .build(PAIR_SEP)
        .unwrap();
    assert_eq!(file_to_map["width"], "1920");
    assert_eq!(file_to_map["height"], "1080");
}

#[test]
fn change_key_val_sep() {
    let file_to_map = FileToMap::new("tests_files/key_val_sep.txt")
        .set_key_value_separator("SEP")
        .build(KEY_VAL_SEP)
        .unwrap();
    assert_eq!(file_to_map["width"], "1920");
    assert_eq!(file_to_map["height"], "1080");
}

#[test]
fn change_separators() {
    let file_to_map = FileToMap::new("tests_files/separators_change.txt")
        .set_pair_separator(":)")
        .set_key_value_separator("SEP")
        .build(SEPARATORS_CHANGE)
        .unwrap();
    assert_eq!(file_to_map["width"], "1920");
    assert_eq!(file_to_map["height"], "1080");
    assert_eq!(file_to_map["hey"], "hoi");
}

#[test]
fn key_doesnt_exist() {
    let file_to_map = FileToMap::new("tests_files/default.txt").build(DEFAULT).unwrap();
    assert!(file_to_map.get("42").is_none());
}

#[test]
#[should_panic]
fn key_doesnt_exist_index_op() {
    let file_to_map = FileToMap::new("tests_files/default.txt").build(DEFAULT).unwrap();
    let _ = file_to_map["42"];
}

#[test]
fn separators_in_the_other_order() {
    let file_to_map = FileToMap::new("settings")
        .set_key_value_separator("SEP")
        .set_pair_separator(":)")
        .build(SEPARATORS_CHANGE)
        .unwrap();
    assert_eq!(file_to_map.len(), 3);
    assert_eq!(file_to_map["width"], "1920");
    assert_eq!(file_to_map["height"], "1080");
    assert_eq!(file_to_map["hey"], "hoi");
}

#[test]
fn last_separator_set_wins() {
    let file_to_map = FileToMap::new("settings")
        .set_pair_separator(";")
        .set_key_value_separator(":")
        .set_pair_separator(":)")
        .set_key_value_separator("SEP")
        .build(SEPARATORS_CHANGE)
        .unwrap();
    assert_eq!(file_to_map.len(), 3);
    assert_eq!(file_to_map["hey"], "hoi");
}

#[test]
fn pair_separator_leaves_key_value_separator_alone() {
    let file_to_map =
        FileToMap::new("settings").set_pair_separator(";").build("a=1;b=2").unwrap();
    assert_eq!(file_to_map.len(), 2);
    assert_eq!(file_to_map["a"], "1");
    assert_eq!(file_to_map["b"], "2");
}

#[test]
fn key_value_separator_leaves_pair_separator_alone() {
    let file_to_map =
        FileToMap::new("settings").set_key_value_separator(": ").build("a: 1\nb: 2").unwrap();
    assert_eq!(file_to_map.len(), 2);
    assert_eq!(file_to_map["a"], "1");
    assert_eq!(file_to_map["b"], "2");
}

#[test]
fn two_pairs_give_two_entries() {
    let file_to_map = FileToMap::new("settings").build("key1=val1\nkey2=val2").unwrap();
    assert_eq!(file_to_map.len(), 2);
    assert_eq!(file_to_map.get("key1").unwrap(), "val1");
    assert_eq!(file_to_map.get("key2").unwrap(), "val2");
    assert!(file_to_map.get("key3").is_none());
    assert!(file_to_map.get("").is_none());
    assert!(file_to_map.get("key1=val1").is_none());
}

#[test]
fn new_mapping_is_empty() {
    let file_to_map = FileToMap::new("settings");
    assert_eq!(file_to_map.len(), 0);
    assert!(file_to_map.get("width").is_none());
    assert_eq!(file_to_map.file_name(), "settings");
}

#[test]
fn file_name_is_kept() {
    let file_to_map = FileToMap::new("tests_files/default.txt")
        .set_pair_separator(";")
        .build("a=1")
        .unwrap();
    assert_eq!(file_to_map.file_name(), "tests_files/default.txt");
}

#[test]
fn carriage_return_with_line_feed_at_the_end() {
    let file_to_map = FileToMap::new("settings").build("width=1920\nheight=1080\r\n").unwrap();
    assert_eq!(file_to_map.len(), 2);
    assert_eq!(file_to_map["height"], "1080");
}

#[test]
fn carriage_return_inside_stays_in_the_value() {
    let file_to_map = FileToMap::new("settings").build("width=1920\r\nheight=1080\r\n").unwrap();
    assert_eq!(file_to_map["width"], "1920\r");
    assert_eq!(file_to_map["height"], "1080");
}

#[test]
fn no_line_terminator_at_the_end() {
    let file_to_map = FileToMap::new("settings").build("width=1920\nheight=1080").unwrap();
    assert_eq!(file_to_map.len(), 2);
    assert_eq!(file_to_map["height"], "1080");
}

#[test]
fn later_pair_replaces_earlier_one() {
    let file_to_map = FileToMap::new("settings").build("a=1\nb=2\na=3\n").unwrap();
    assert_eq!(file_to_map.len(), 2);
    assert_eq!(file_to_map["a"], "3");
    assert_eq!(file_to_map["b"], "2");
}

#[test]
fn value_may_hold_the_key_value_separator() {
    let file_to_map = FileToMap::new("settings").build("url=http://host/?a=b\n").unwrap();
    assert_eq!(file_to_map.len(), 1);
    assert_eq!(file_to_map["url"], "http://host/?a=b");
}

#[test]
fn empty_key_and_empty_value() {
    let file_to_map = FileToMap::new("settings").build("=1\nb=\n").unwrap();
    assert_eq!(file_to_map.len(), 2);
    assert_eq!(file_to_map[""], "1");
    assert_eq!(file_to_map["b"], "");
}

#[test]
fn keys_and_values_beyond_ascii() {
    let file_to_map = FileToMap::new("settings")
        .set_key_value_separator("→")
        .set_pair_separator("¶")
        .build("größe→große¶名前→値\n")
        .unwrap();
    assert_eq!(file_to_map.len(), 2);
    assert_eq!(file_to_map["größe"], "große");
    assert_eq!(file_to_map["名前"], "値");
}

#[test]
fn building_twice_adds_to_the_mapping() {
    let file_to_map = FileToMap::new("settings")
        .build("a=1\nb=2\n")
        .unwrap()
        .build("b=3\nc=4\n")
        .unwrap();
    assert_eq!(file_to_map.len(), 3);
    assert_eq!(file_to_map["a"], "1");
    assert_eq!(file_to_map["b"], "3");
    assert_eq!(file_to_map["c"], "4");
}

#[test]
fn empty_key_value_separator_gives_an_empty_key() {
    let file_to_map = FileToMap::new("settings").set_key_value_separator("").build("abc").unwrap();
    assert_eq!(file_to_map.len(), 1);
    assert_eq!(file_to_map[""], "abc");
}
