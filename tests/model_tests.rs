use fasttextaug::mapping::{transform_to_set, Mapping, MappingSet};
use fasttextaug::model::{deduplicate, BaseModel, KeyboardModel, OcrModel, RandomCharModel, RandomWordModel};

fn strs(v: &[&str]) -> Vec<String> {
    v.iter().map(|s| String::from(*s)).collect()
}

fn mapping(pairs: &[(&str, &[&str])]) -> Mapping {
    Mapping::from_pairs(pairs.iter().map(|(k, v)| (String::from(*k), strs(v))).collect())
}

fn mapping_set(pairs: &[(&str, &[&str])]) -> MappingSet {
    MappingSet::from_pairs(pairs.iter().map(|(k, v)| (String::from(*k), strs(v))).collect())
}

fn small_keyboard() -> Mapping {
    mapping(&[("а", &["1", "$", "б"]), ("2", &["8", "@", "й"]), ("%", &["м", "0", "!"])])
}

#[test]
fn test_deduplicate() {
    let input_hash = mapping(&[("A", &["a", "a", "c"]), ("B", &["b"])]);
    let deduplicated_hash = deduplicate(input_hash);
    assert_eq!(deduplicated_hash.get("A").unwrap().len(), 2);
    assert_eq!(deduplicated_hash.get("B").unwrap().len(), 1);
    assert_eq!(*deduplicated_hash.get("A").unwrap(), strs(&["a", "c"]));
}

#[test]
fn test_get_non_model_stats() {
    let empty_model = OcrModel::new(String::from("unused.json"));
    assert_eq!(empty_model.get_stats(), (0, 0, vec![]));
}

#[test]
fn test_get_empty_model_stats() {
    let empty_model = RandomWordModel::from_map(Mapping::with_capacity(3));
    assert_eq!(empty_model.get_stats(), (0, 3, vec![]));
}

#[test]
fn test_get_model_stats() {
    let model = RandomWordModel::from_map(mapping(&[("A", &["a", "b"])]));
    let (len, cap, arr) = model.get_stats();
    assert_eq!(len, 1);
    assert!(cap >= 1);
    assert_eq!(arr.len(), 1);
    assert_eq!(arr[0].0, 2);
}

#[test]
fn test_predict_non_model() {
    let empty_model = OcrModel::new(String::from("unused.json"));
    assert_eq!(empty_model.predict("a"), None);
}

#[test]
fn test_predict_empty_model() {
    let empty_model = RandomWordModel::from_map(Mapping::with_capacity(3));
    assert_eq!(empty_model.predict("a"), None);
}

#[test]
fn test_predict_model() {
    let model = RandomWordModel::from_map(mapping(&[("A", &["a", "b"]), ("B", &["f"])]));
    assert_eq!(*model.predict("A").unwrap(), strs(&["a", "b"]));
    assert_eq!(*model.predict("B").unwrap(), strs(&["f"]));
    assert_eq!(model.predict("C"), None);
}

#[test]
fn test_mapping_later_pair_wins() {
    let m = mapping(&[("A", &["a"]), ("A", &["b", "c"])]);
    assert_eq!(m.len(), 1);
    assert_eq!(*m.get("A").unwrap(), strs(&["b", "c"]));
}

#[test]
fn test_check_conditions() {
    let allow_all = KeyboardModel::new(true, true, true, String::from(""));
    assert!(allow_all.check_conditions("й"));
    assert!(allow_all.check_conditions("7"));
    assert!(allow_all.check_conditions("!"));

    let forbid_special_chars = KeyboardModel::new(false, true, true, String::from(""));
    assert!(forbid_special_chars.check_conditions("L"));
    assert!(forbid_special_chars.check_conditions("4"));
    assert!(!forbid_special_chars.check_conditions("%"));

    let forbid_digits = KeyboardModel::new(true, false, true, String::from(""));
    assert!(forbid_digits.check_conditions("f"));
    assert!(!forbid_digits.check_conditions("4"));
    assert!(forbid_digits.check_conditions("$"));

    let forbid_all = KeyboardModel::new(false, false, true, String::from(""));
    assert!(forbid_all.check_conditions("Б"));
    assert!(!forbid_all.check_conditions("9"));
    assert!(!forbid_all.check_conditions("@"));
}

fn keyboard_set(special: bool, numeric: bool, upper: bool) -> MappingSet {
    let mut model = KeyboardModel::new(special, numeric, upper, String::from("test_res/small_keyboard.json"));
    model.load_model(small_keyboard());
    transform_to_set(model.get_mapping().unwrap())
}

#[test]
fn test_load_model_caps_allow_all() {
    let expected = mapping_set(&[
        ("а", &["1", "$", "б", "Б"]),
        ("А", &["1", "$", "б", "Б"]),
        ("2", &["8", "@", "й", "Й"]),
        ("%", &["м", "М", "0", "!"]),
    ]);
    assert_eq!(keyboard_set(true, true, true), expected);
}

#[test]
fn test_load_model_allow_all() {
    let expected = mapping_set(&[("а", &["1", "$", "б"]), ("2", &["8", "@", "й"]), ("%", &["м", "0", "!"])]);
    assert_eq!(keyboard_set(true, true, false), expected);
}

#[test]
fn test_load_model_caps_forbid_spec() {
    let expected = mapping_set(&[("а", &["1", "б", "Б"]), ("А", &["1", "б", "Б"]), ("2", &["8", "й", "Й"])]);
    assert_eq!(keyboard_set(false, true, true), expected);
}

#[test]
fn test_load_model_forbid_spec() {
    let expected = mapping_set(&[("а", &["1", "б"]), ("2", &["8", "й"])]);
    assert_eq!(keyboard_set(false, true, false), expected);
}

#[test]
fn test_load_model_caps_forbid_num() {
    let expected = mapping_set(&[("а", &["$", "б", "Б"]), ("А", &["$", "б", "Б"]), ("%", &["м", "М", "!"])]);
    assert_eq!(keyboard_set(true, false, true), expected);
}

#[test]
fn test_load_model_forbid_num() {
    let expected = mapping_set(&[("а", &["$", "б"]), ("%", &["м", "!"])]);
    assert_eq!(keyboard_set(true, false, false), expected);
}

#[test]
fn test_load_model_caps_forbid_all() {
    let expected = mapping_set(&[("а", &["б", "Б"]), ("А", &["б", "Б"])]);
    assert_eq!(keyboard_set(false, false, true), expected);
}

#[test]
fn test_load_model_forbid_all() {
    let expected = mapping_set(&[("а", &["б"])]);
    assert_eq!(keyboard_set(false, false, false), expected);
}

#[test]
fn keyboard_test_load_model() {
    let mut key_model = KeyboardModel::new(false, false, false, String::from("test_res/small_keyboard.json"));
    assert!(key_model.get_mapping().is_none());
    key_model.load_model(small_keyboard());
    let m = key_model.get_mapping().unwrap();
    assert_eq!(m.len(), 1);
    assert_eq!(*m.get("а").unwrap(), strs(&["б"]));
    key_model.load_model(small_keyboard());
    let m = key_model.get_mapping().unwrap();
    assert_eq!(m.len(), 1);
    assert_eq!(*m.get("а").unwrap(), strs(&["б"]));
}

#[test]
fn ocr_test_reverse() {
    let mut hash = mapping(&[
        ("A", &["x", "y"]),
        ("B", &["b"]),
        ("C", &["x", "x"]),
        ("D", &["d"]),
        ("d", &["D"]),
    ]);
    let expected_result = mapping_set(&[
        ("A", &["x", "y"]),
        ("B", &["b"]),
        ("C", &["x"]),
        ("x", &["A", "C"]),
        ("y", &["A"]),
        ("b", &["B"]),
        ("D", &["d"]),
        ("d", &["D"]),
    ]);
    OcrModel::reverse_mapping(&mut hash);
    assert_eq!(hash.get("x").unwrap().len(), 3);
    assert_eq!(transform_to_set(&hash), expected_result);
    let hash = deduplicate(hash);
    assert_eq!(hash.get("x").unwrap().len(), 2);
    assert_eq!(hash.get("y").unwrap().len(), 1);
}

#[test]
fn ocr_test_reverse_empty() {
    let mut hash = Mapping::new();
    OcrModel::reverse_mapping(&mut hash);
    assert_eq!(hash.len(), 0);
}

#[test]
fn ocr_test_create_from_mapping() {
    let input = mapping(&[("A", &["a", "a"]), ("B", &["b", "ю"]), ("Ж", &["b"])]);
    let mut ocr_model = OcrModel::new_from_mapping(input);
    let expected = mapping_set(&[
        ("A", &["a"]),
        ("B", &["b", "ю"]),
        ("Ж", &["b"]),
        ("a", &["A"]),
        ("b", &["B", "Ж"]),
        ("ю", &["B"]),
    ]);
    let obs_set = transform_to_set(ocr_model.get_mapping().unwrap());
    assert_eq!(obs_set, expected);
    assert_eq!(*ocr_model.model_path(), String::from("internal mapping"));
    ocr_model.load_model(Mapping::new());
    assert_eq!(transform_to_set(ocr_model.get_mapping().unwrap()), expected);
    assert_eq!(*ocr_model.model_path(), String::from("internal mapping"));
}

#[test]
fn ocr_test_load_model() {
    let mut ocr = OcrModel::new(String::from("test_res/small_mapping.json"));
    assert!(ocr.get_mapping().is_none());
    ocr.load_model(mapping(&[("A", &["a", "b"]), ("B", &["f"])]));
    let exp = mapping_set(&[("A", &["a", "b"]), ("B", &["f"]), ("a", &["A"]), ("b", &["A"]), ("f", &["B"])]);
    assert_eq!(transform_to_set(ocr.get_mapping().unwrap()), exp);
    ocr.load_model(Mapping::new());
    assert_eq!(transform_to_set(ocr.get_mapping().unwrap()), exp);
}

#[test]
fn ocr_test_empty_transform_to_set() {
    let input_mapping = Mapping::new();
    assert_eq!(transform_to_set(&input_mapping), MappingSet::from_pairs(vec![]));
}

#[test]
fn test_load_not_load_model() {
    let model = RandomCharModel::new(true, true, true, true, "en", None);
    assert_eq!(model.predict(""), None);
}

#[test]
fn test_load_full_en_model() {
    let mut model = RandomCharModel::new(true, true, true, true, "en", None);
    model.load_model();
    assert_ne!(model.predict(""), None);
    assert_eq!(model.predict("").unwrap().len(), 74);
}

#[test]
fn test_load_chars_digits_ru_model() {
    let mut model = RandomCharModel::new(true, true, false, true, "ru", None);
    model.load_model();
    assert_ne!(model.predict(""), None);
    assert_eq!(model.predict("").unwrap().len(), 76);
}

#[test]
fn test_load_chars_digits_only_model() {
    let mut model = RandomCharModel::new(true, true, false, true, "br-br", None);
    model.load_model();
    assert_ne!(model.predict(""), None);
    assert_eq!(model.predict("").unwrap().len(), 10);
}

#[test]
fn test_custom_spec_chars() {
    let mut model = RandomCharModel::new(true, true, true, false, "br-br", Some(String::from("$%!")));
    model.load_model();
    assert_ne!(model.predict(""), None);
    assert_eq!(model.predict("").unwrap().len(), 3);
    assert_eq!(*model.predict("x").unwrap(), strs(&["$", "%", "!"]));
}

#[test]
fn test_custom_candidates() {
    let mut model = RandomCharModel::from_candidates(vec![String::from("a"), String::from("q")]);
    model.load_model();
    assert_ne!(model.predict(""), None);
    assert_eq!(model.predict("").unwrap().len(), 2);
}

#[test]
fn test_vec_model() {
    let model = RandomWordModel::from_vec(strs(&["a", "b", "world"]));
    model.load_model();
    let expected = strs(&["a", "b", "world"]);
    assert!(model.key_exists("world"));
    assert!(model.key_exists("key"));
    assert_eq!(model.predict("a"), Some(&expected));
    assert_eq!(model.predict("hello"), Some(&expected));
}

#[test]
fn test_map_model() {
    let model = RandomWordModel::from_map(mapping(&[("data", &["A", "Ok"]), ("key", &["value"])]));
    model.load_model();
    let expected_one = strs(&["A", "Ok"]);
    let expected_two = strs(&["value"]);
    assert!(model.key_exists("key"));
    assert!(!model.key_exists("world"));
    assert_eq!(model.predict("data"), Some(&expected_one));
    assert_eq!(model.predict("key"), Some(&expected_two));
    assert_eq!(model.predict("hello"), None);
}

#[test]
fn test_empty_word_model() {
    let model = RandomWordModel::empty_model();
    assert!(!model.key_exists("word"));
    assert_eq!(model.predict("word"), None);
    assert_eq!(model.get_stats(), (0, 0, vec![]));
}

#[test]
fn test_transform_to_set() {
    let input_mapping = mapping(&[("A", &["a", "a", "c"]), ("B", &["b"]), ("C", &["c", "s"])]);
    let expected_result = mapping_set(&[("A", &["a", "c"]), ("B", &["b"]), ("C", &["c", "s"])]);
    assert_eq!(transform_to_set(&input_mapping), expected_result);
    assert_ne!(transform_to_set(&input_mapping), mapping_set(&[("A", &["a"]), ("B", &["b"]), ("C", &["c", "s"])]));
}

#[test]
fn utils_test_empty_transform_to_set() {
    let input_mapping = Mapping::new();
    let mapping_set: MappingSet = transform_to_set(&input_mapping);
    let expected_result: MappingSet = MappingSet::from_pairs(vec![]);
    assert_eq!(mapping_set, expected_result);
}

#[test]
fn test_reverse() {
    let mut hash = mapping(&[
        ("A", &["x", "y"]),
        ("B", &["b"]),
        ("C", &["x", "x"]),
        ("D", &["d"]),
        ("d", &["D"]),
    ]);
    let expected_result = mapping_set(&[
        ("A", &["x", "y"]),
        ("B", &["b"]),
        ("C", &["x"]),
        ("x", &["C", "A"]),
        ("y", &["A"]),
        ("b", &["B"]),
        ("D", &["d"]),
        ("d", &["D"]),
    ]);
    OcrModel::reverse_mapping(&mut hash);
    assert_eq!(hash.get("x").unwrap().len(), 3);
    assert_eq!(transform_to_set(&hash), expected_result);
    let hash = deduplicate(hash);
    assert_eq!(hash.get("x").unwrap().len(), 2);
    assert_eq!(hash.get("y").unwrap().len(), 1);
}

#[test]
fn test_reverse_empty() {
    let mut hash = Mapping::new();
    OcrModel::reverse_mapping(&mut hash);
    assert_eq!(transform_to_set(&hash), MappingSet::from_pairs(vec![]));
}

#[test]
fn test_create_from_mapping() {
    let input = mapping(&[("A", &["a", "a"]), ("B", &["b", "f"]), ("C", &["b"])]);
    let mut ocr_model = OcrModel::new_from_mapping(input);
    let expected = mapping_set(&[
        ("A", &["a"]),
        ("B", &["b", "f"]),
        ("C", &["b"]),
        ("a", &["A"]),
        ("b", &["B", "C"]),
        ("f", &["B"]),
    ]);
    let obs_set = transform_to_set(ocr_model.get_mapping().unwrap());
    assert_eq!(obs_set, expected);
    assert_eq!(*ocr_model.model_path(), String::from("internal mapping"));
    ocr_model.load_model(Mapping::new());
    assert_eq!(transform_to_set(ocr_model.get_mapping().unwrap()), expected);
    assert_eq!(*ocr_model.model_path(), String::from("internal mapping"));
}

#[test]
fn test_load_model() {
    let mut ocr = OcrModel::new(String::from("test_res/small_mapping.json"));
    assert!(ocr.get_mapping().is_none());
    ocr.load_model(mapping(&[("A", &["a", "b"]), ("B", &["f"])]));
    let exp = mapping_set(&[("A", &["a", "b"]), ("B", &["f"]), ("a", &["A"]), ("b", &["A"]), ("f", &["B"])]);
    assert_eq!(transform_to_set(ocr.get_mapping().unwrap()), exp);
    ocr.load_model(Mapping::new());
    assert_eq!(transform_to_set(ocr.get_mapping().unwrap()), exp);
}
