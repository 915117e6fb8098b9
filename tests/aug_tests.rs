use fasttextaug::api::{parse_char_action, parse_char_action_strict, parse_word_action, parse_word_action_strict, RustRandomCharApiClass, RustRandomWordApiClass};
use fasttextaug::aug::{Action, WordSampling};
use fasttextaug::char_aug::{augment_chars, parse_swap_mode, parse_swap_mode_strict, rewrite_token, swap_chars, RandomCharAugmentor, SwapMode};
use fasttextaug::count::{AugCountParams, Fraction};
use fasttextaug::doc::Doc;
use fasttextaug::mapping::Mapping;
use fasttextaug::model::{RandomCharModel, RandomWordModel};
use fasttextaug::text::get_chars_len;
use fasttextaug::token::{Token, TokenType};
use fasttextaug::word_aug::{get_word_swap_position, RandomWordAugmentor};
use rand::rngs::StdRng;
use rand::SeedableRng;
use std::sync::Arc;

fn strs(v: &[&str]) -> Vec<String> {
    v.iter().map(|s| String::from(*s)).collect()
}

fn mapping(pairs: &[(&str, &[&str])]) -> Mapping {
    Mapping::from_pairs(pairs.iter().map(|(k, v)| (String::from(*k), strs(v))).collect())
}

fn params(min: Option<usize>, max: Option<usize>, p: Option<(i64, u64)>) -> AugCountParams {
    AugCountParams::new(min, max, p.map(|(n, d)| Fraction::new(n, d)))
}

fn rng() -> StdRng {
    StdRng::seed_from_u64(7)
}

fn sampling(p: AugCountParams, min_chars: Option<usize>, stopwords: Option<Vec<String>>, use_model: bool, special: bool) -> WordSampling {
    WordSampling { aug_params_word: p, min_chars, stopwords, use_model, use_special_chars: special }
}

fn word_model(keys: &[&str]) -> RandomWordModel {
    let pairs: Vec<(&str, &[&str])> = keys.iter().map(|k| (*k, &["x"][..])).collect();
    RandomWordModel::from_map(mapping(&pairs))
}

fn filtered_indexes(s: &WordSampling, model: &RandomWordModel) -> Vec<usize> {
    let doc = Doc::new(&String::from("My !example ! string!"));
    s.get_filtered_word_tokens(&doc, model).iter().map(|x| x.0).collect()
}

#[test]
fn test_filter_with_special_char() {
    let s = sampling(params(None, None, None), None, None, false, true);
    assert_eq!(filtered_indexes(&s, &word_model(&[])), vec![0, 2, 3, 5, 7, 8]);
}

#[test]
fn test_filter_without_special_char() {
    let s = sampling(params(None, None, None), None, None, false, false);
    assert_eq!(filtered_indexes(&s, &word_model(&[])), vec![0, 3, 7]);
}

#[test]
fn test_filter_by_min_char_and_special_char() {
    let s = sampling(params(None, None, None), Some(3), None, false, true);
    assert_eq!(filtered_indexes(&s, &word_model(&[])), vec![3, 7]);
}

#[test]
fn test_filter_by_min_char_and_stopwords() {
    let s = sampling(params(None, None, None), Some(2), Some(strs(&["example"])), false, false);
    assert_eq!(filtered_indexes(&s, &word_model(&[])), vec![0, 7]);
}

#[test]
fn test_filter_by_min_char_and_stopwords_and_empty_model() {
    let s = sampling(params(None, None, None), Some(2), Some(strs(&["example"])), true, false);
    assert_eq!(filtered_indexes(&s, &word_model(&[])).len(), 0);
}

#[test]
fn test_filter_by_min_char_and_stopwords_and_non_empty_model() {
    let s = sampling(params(None, None, None), Some(2), Some(strs(&["example"])), true, false);
    assert_eq!(filtered_indexes(&s, &word_model(&["string"])), vec![7]);
}

#[test]
fn test_sample_some_data() {
    let doc = Doc::new(&String::from("My !example ! string!"));
    let s = sampling(params(None, None, Some((1, 10))), Some(2), Some(strs(&["example"])), false, false);
    let mut r = rng();
    let result = s.sample_word_tokens_to_aug(&doc, &word_model(&[]), &mut r);
    assert_eq!(result.len(), 1);
    assert!((result[0].0 == 0) | (result[0].0 == 7));
}

#[test]
fn test_sample_full_data() {
    let doc = Doc::new(&String::from("My !example ! string!"));
    let s = sampling(params(None, None, Some((1, 1))), Some(2), Some(strs(&["example"])), false, false);
    let mut r = rng();
    let result = s.sample_word_tokens_to_aug(&doc, &word_model(&[]), &mut r);
    assert_eq!(result.len(), 2);
    assert!((result[0].0 == 0) & (result[1].0 == 7));
}

#[test]
fn test_sample_zero_data() {
    let doc = Doc::new(&String::from("My !example ! string!"));
    let s = sampling(params(None, None, Some((0, 1))), Some(2), Some(strs(&["example"])), false, false);
    let mut r = rng();
    assert_eq!(s.sample_word_tokens_to_aug(&doc, &word_model(&[]), &mut r).len(), 0);
}

fn mock_char_model() -> RandomWordModel {
    RandomWordModel::from_map(mapping(&[
        ("А", &["Х", "Ш"]),
        ("а", &["О", "0"]),
        ("г", &["Х", "Ш"]),
        ("с", &["О", "0"]),
        ("v", &["s", "7"]),
        ("Q", &["O", "f"]),
    ]))
}

fn sampled_chars(p: AugCountParams, word: &str) -> Vec<usize> {
    let token = Token::new(TokenType::WordToken, String::from(word));
    let mut r = rng();
    fasttextaug::char_aug::sample_chars_to_aug(&mock_char_model(), &p, &token, &mut r)
}

#[test]
fn sample_chars_to_aug() {
    assert_eq!(sampled_chars(params(Some(1), Some(5), Some((1, 2))), "Qvqv").len(), 2);
}

#[test]
fn sample_chars_to_aug_cyrillic() {
    assert_eq!(sampled_chars(params(Some(3), Some(7), Some((2, 5))), "агсагсагс").len(), 4);
}

#[test]
fn sample_chars_to_aug_get_all_possible() {
    assert_eq!(sampled_chars(params(Some(1), Some(10), Some((4, 5))), "vavava"), vec![0, 2, 4]);
}

#[test]
fn sample_chars_to_aug_get_all_possible_cyrillic() {
    assert_eq!(sampled_chars(params(Some(3), Some(7), Some((4, 5))), "Авиастроение").len(), 3);
}

#[test]
fn sample_chars_to_aug_get_zero_by_params() {
    assert_eq!(sampled_chars(params(None, None, Some((0, 1))), "vavava").len(), 0);
}

#[test]
fn sample_chars_to_aug_get_zero_by_mapping() {
    assert_eq!(sampled_chars(params(Some(1), Some(3), Some((3, 10))), "none").len(), 0);
}

#[test]
fn sample_chars_to_aug_get_zero_by_params_cyrillic() {
    assert_eq!(sampled_chars(params(None, None, Some((0, 1))), "агс").len(), 0);
}

#[test]
fn sample_chars_to_aug_get_zero_by_mapping_cyrillic() {
    assert_eq!(sampled_chars(params(Some(1), Some(3), Some((3, 10))), "ноль").len(), 0);
}

fn char_substitute(word_params: AugCountParams, char_params: AugCountParams, input: &str) -> Doc {
    let mut doc = Doc::new(&String::from(input));
    let s = sampling(word_params, None, None, false, false);
    let mut r = rng();
    augment_chars(&mut doc, &mock_char_model(), &s, &char_params, Action::Substitute, SwapMode::Adjacent, &mut r);
    doc
}

#[test]
fn test_substitute_word_non_sampled() {
    let input = "Пример строки для аугментации";
    let doc = char_substitute(params(None, None, Some((0, 1))), params(None, None, None), input);
    assert_eq!(doc.get_augmented_string(), input);
    assert_eq!(doc.get_changed_count(), 0)
}

#[test]
fn test_substitute_word_non_sampled_char() {
    let input = "Пример строки для аугментации";
    let doc = char_substitute(params(None, None, None), params(None, None, Some((0, 1))), input);
    assert_eq!(doc.get_augmented_string(), input);
    assert_eq!(doc.get_changed_count(), 0)
}

#[test]
fn test_substitute_word_non_chars_in_model() {
    let input = "Пример ещё один";
    let doc = char_substitute(params(None, None, None), params(None, None, None), input);
    assert_eq!(doc.get_augmented_string(), input);
    assert_eq!(doc.get_changed_count(), 0)
}

#[test]
fn test_substitute_word() {
    let input = "Апельсин гора стакан";
    let doc = char_substitute(params(Some(2), None, None), params(None, None, None), input);
    assert_ne!(doc.get_augmented_string(), input);
    assert_eq!(get_chars_len(&doc.get_augmented_string()), get_chars_len(input));
    assert_eq!(doc.get_changed_count(), 2)
}

fn random_char_aug(action: Action, lang: &str, stopwords: &[&str], swap: &str) -> RandomCharAugmentor {
    let mut model = RandomCharModel::new(true, true, true, true, lang, None);
    model.load_model();
    RandomCharAugmentor::new(
        action,
        params(Some(1), Some(5), None),
        params(Some(2), Some(6), None),
        Some(3),
        Arc::new(model),
        Some(strs(stopwords)),
        String::from(swap),
    )
}

fn run_char(aug: &RandomCharAugmentor, input: &str) -> String {
    let mut doc = Doc::new(&String::from(input));
    let mut r = rng();
    aug.augment(&mut doc, &mut r);
    doc.get_augmented_string()
}

const EN_INPUT: &str = "The quick brown fox jumps over the lazy dog .";
const RU_INPUT: &str = "Привет, попробуем аугментировать эту строку";

#[test]
fn test_substitute_some_data() {
    let result = run_char(&random_char_aug(Action::Substitute, "en", &["fox", "The"], ""), EN_INPUT);
    assert_ne!(result, EN_INPUT);
    assert_eq!(get_chars_len(&result), get_chars_len(EN_INPUT));
    assert!(result.contains("The"));
    assert!(result.contains("fox"));
}

#[test]
fn test_substitute_some_cyrillic() {
    let result = run_char(&random_char_aug(Action::Substitute, "ru", &["Привет"], ""), RU_INPUT);
    assert_ne!(result, RU_INPUT);
    assert_eq!(get_chars_len(&result), get_chars_len(RU_INPUT));
    assert!(result.contains("Привет"));
}

#[test]
fn test_insert_some_data() {
    let result = run_char(&random_char_aug(Action::Insert, "en", &["fox", "The"], ""), EN_INPUT);
    assert_ne!(result, EN_INPUT);
    assert!(get_chars_len(&result) > get_chars_len(EN_INPUT));
    assert!(result.contains("The"));
    assert!(result.contains("fox"));
}

#[test]
fn test_insert_some_cyrillic() {
    let result = run_char(&random_char_aug(Action::Insert, "ru", &["Привет"], ""), RU_INPUT);
    assert_ne!(result, RU_INPUT);
    assert!(get_chars_len(&result) > get_chars_len(RU_INPUT));
    assert!(result.contains("Привет"));
}

#[test]
fn get_swap_position_adjacent() {
    let aug = random_char_aug(Action::Swap, "en", &[], "adjacent");
    let mut r = rng();
    assert_eq!(aug.get_swap_position(0, 5, &mut r), 1);
    assert_eq!(aug.get_swap_position(5, 5, &mut r), 4);
    let swap_position = aug.get_swap_position(2, 5, &mut r);
    assert!((swap_position == 1) | (swap_position == 3));
}

#[test]
fn get_swap_position_middle() {
    let aug = random_char_aug(Action::Swap, "en", &[], "middle");
    let mut r = rng();
    for _ in 0..20 {
        let swap_position = aug.get_swap_position(2, 5, &mut r);
        assert!(swap_position != 0);
        assert!(swap_position != 2);
        assert!(swap_position != 5);
    }
    for _ in 0..20 {
        assert_eq!(aug.get_swap_position(0, 2, &mut r), 1);
    }
    for _ in 0..20 {
        assert_eq!(aug.get_swap_position(1, 2, &mut r), 1);
    }
}

#[test]
fn get_swap_position_random() {
    let aug = random_char_aug(Action::Swap, "en", &[], "random");
    let mut r = rng();
    for _ in 0..20 {
        assert_eq!(aug.get_swap_position(1, 1, &mut r), 0);
    }
    for _ in 0..20 {
        let swap_position = aug.get_swap_position(1, 2, &mut r);
        assert!((swap_position == 0) | (swap_position == 2));
    }
}

#[test]
fn test_swap_some_data() {
    let result = run_char(&random_char_aug(Action::Swap, "ru", &["fox", "The"], ""), EN_INPUT);
    assert_ne!(result, EN_INPUT);
    assert_eq!(get_chars_len(&result), get_chars_len(EN_INPUT));
    assert!(result.contains("The"));
    assert!(result.contains("fox"));
}

#[test]
fn test_swap_some_cyrillic() {
    let result = run_char(&random_char_aug(Action::Swap, "ru", &["Привет"], ""), RU_INPUT);
    assert_ne!(result, RU_INPUT);
    assert_eq!(get_chars_len(&result), get_chars_len(RU_INPUT));
    assert!(result.contains("Привет"));
}

#[test]
fn test_swap_keeps_case_with_position() {
    let mut model = RandomCharModel::new(true, true, true, true, "en", None);
    model.load_model();
    let aug = RandomCharAugmentor::new(
        Action::Swap,
        params(None, None, Some((1, 1))),
        params(None, None, Some((1, 1))),
        None,
        Arc::new(model),
        None,
        String::from("adjacent"),
    );
    let result = run_char(&aug, "Ab");
    assert_eq!(result, "Ab");
}

#[test]
fn test_swap_skips_single_char_tokens() {
    let aug = RandomCharAugmentor::new(
        Action::Swap,
        params(None, None, Some((1, 1))),
        params(None, None, Some((1, 1))),
        None,
        Arc::new(RandomCharModel::from_candidates(strs(&["z"]))),
        None,
        String::from("random"),
    );
    let mut doc = Doc::new(&String::from("a b c"));
    let mut r = rng();
    aug.augment(&mut doc, &mut r);
    assert_eq!(doc.get_augmented_string(), "a b c");
    assert_eq!(doc.get_changed_count(), 0);
}

#[test]
fn test_delete_some_data() {
    let result = run_char(&random_char_aug(Action::Delete, "en", &["fox", "The"], ""), EN_INPUT);
    assert_ne!(result, EN_INPUT);
    assert!(get_chars_len(&result) < get_chars_len(EN_INPUT));
    assert!(result.contains("The"));
    assert!(result.contains("fox"));
}

#[test]
fn test_delete_some_cyrillic() {
    let result = run_char(&random_char_aug(Action::Delete, "ru", &["Привет"], ""), RU_INPUT);
    assert_ne!(result, RU_INPUT);
    assert!(get_chars_len(&result) < get_chars_len(RU_INPUT));
    assert!(result.contains("Привет"));
}

#[test]
fn test_char_substitute_with_one_candidate_is_exact() {
    let aug = RandomCharAugmentor::new(
        Action::Substitute,
        params(None, None, Some((1, 1))),
        params(None, None, Some((1, 1))),
        None,
        Arc::new(RandomCharModel::from_candidates(strs(&["z"]))),
        None,
        String::new(),
    );
    assert_eq!(run_char(&aug, "ab, c!"), "zz, z!");
}

#[test]
fn test_char_insert_with_one_candidate_is_exact() {
    let aug = RandomCharAugmentor::new(
        Action::Insert,
        params(None, None, Some((1, 1))),
        params(None, None, Some((1, 1))),
        None,
        Arc::new(RandomCharModel::from_candidates(strs(&["-"]))),
        None,
        String::new(),
    );
    assert_eq!(run_char(&aug, "ab c"), "-a-b -c");
}

#[test]
fn test_char_delete_everything() {
    let aug = RandomCharAugmentor::new(
        Action::Delete,
        params(None, None, Some((1, 1))),
        params(None, None, Some((1, 1))),
        None,
        Arc::new(RandomCharModel::from_candidates(vec![])),
        None,
        String::new(),
    );
    assert_eq!(run_char(&aug, "ab, c!"), ", !");
}

#[test]
fn test_char_no_op_with_zero_fraction() {
    let mut aug = random_char_aug(Action::Substitute, "en", &[], "");
    aug = RandomCharAugmentor::new(
        aug.get_action(),
        params(None, None, None),
        params(None, None, Some((0, 1))),
        None,
        Arc::new(RandomCharModel::from_candidates(strs(&["z"]))),
        None,
        String::new(),
    );
    let mut doc = Doc::new(&String::from(EN_INPUT));
    let mut r = rng();
    aug.augment(&mut doc, &mut r);
    assert_eq!(doc.get_augmented_string(), EN_INPUT);
    assert_eq!(doc.get_changed_count(), 0);
}

fn word_aug(action: Action, p: AugCountParams, model: RandomWordModel, stopwords: Option<Vec<String>>) -> RandomWordAugmentor {
    RandomWordAugmentor::new(action, p, Arc::new(model), stopwords)
}

#[test]
fn test_sampled_vec_model() {
    let aug = word_aug(Action::Substitute, params(Some(10), Some(100), Some((1, 1))), RandomWordModel::from_vec(strs(&["word"])), None);
    let input_string = String::from("My new input string!");
    let mut doc = Doc::new(&input_string);
    let mut r = rng();
    assert_eq!(aug.sample_word_tokens_to_aug(&doc, &mut r).len(), 4);
    aug.augment(&mut doc, &mut r);
    let result = doc.get_augmented_string();
    assert_ne!(input_string, result);
    assert_eq!(result, String::from("word word word word!"));
}

#[test]
fn test_sampled_vec_model_with_stopwords() {
    let aug = word_aug(
        Action::Substitute,
        params(Some(10), Some(100), Some((1, 1))),
        RandomWordModel::from_vec(strs(&["word"])),
        Some(strs(&["My", "new"])),
    );
    let input_string = String::from("My new input string!");
    let mut doc = Doc::new(&input_string);
    let mut r = rng();
    assert_eq!(aug.sample_word_tokens_to_aug(&doc, &mut r).len(), 2);
    aug.augment(&mut doc, &mut r);
    let result = doc.get_augmented_string();
    assert_ne!(input_string, result);
    assert_eq!(result, String::from("My new word word!"));
}

fn dict_model() -> RandomWordModel {
    RandomWordModel::from_map(mapping(&[("My", &["Their", "Our"]), ("new", &["fresh"])]))
}

#[test]
fn test_sampled_dict_model() {
    let aug = word_aug(Action::Substitute, params(Some(10), Some(100), Some((1, 1))), dict_model(), None);
    let input_string = String::from("My new input string!");
    let mut doc = Doc::new(&input_string);
    let mut r = rng();
    assert_eq!(aug.sample_word_tokens_to_aug(&doc, &mut r).len(), 2);
    aug.augment(&mut doc, &mut r);
    let result = doc.get_augmented_string();
    assert_ne!(input_string, result);
    assert!((result == String::from("Their fresh input string!")) | (result == String::from("Our fresh input string!")));
}

#[test]
fn test_sampled_dict_model_with_stopwords() {
    let aug = word_aug(Action::Substitute, params(Some(10), Some(100), Some((1, 1))), dict_model(), Some(strs(&["My", "new"])));
    let input_string = String::from("My new input string!");
    let mut doc = Doc::new(&input_string);
    let mut r = rng();
    assert_eq!(aug.sample_word_tokens_to_aug(&doc, &mut r).len(), 0);
    aug.augment(&mut doc, &mut r);
    assert_eq!(input_string, doc.get_augmented_string());
}

#[test]
fn test_swap_tokens() {
    let aug = word_aug(Action::Swap, params(None, None, Some((1, 5))), RandomWordModel::from_vec(strs(&["word"])), None);
    let input_string = String::from("My new!! input string!");
    let mut doc = Doc::new(&input_string);
    let mut r = rng();
    aug.augment(&mut doc, &mut r);
    assert_ne!(input_string, doc.get_augmented_string());
    assert_eq!(doc.get_changed_count(), 1)
}

#[test]
fn test_swap_two_times() {
    let aug = word_aug(Action::Swap, params(None, None, Some((1, 1))), RandomWordModel::from_vec(vec![]), None);
    let input_string = String::from("Test string!");
    let mut doc = Doc::new(&input_string);
    let mut r = rng();
    aug.augment(&mut doc, &mut r);
    assert_eq!(input_string, doc.get_augmented_string());
    assert_eq!(doc.get_changed_count(), 2)
}

#[test]
fn test_delete_some_tokens() {
    let aug = word_aug(Action::Delete, params(None, None, Some((1, 2))), RandomWordModel::from_vec(vec![]), None);
    let input_string = String::from("My new!! input string!");
    let mut doc = Doc::new(&input_string);
    let mut r = rng();
    aug.augment(&mut doc, &mut r);
    assert_ne!(input_string, doc.get_augmented_string());
    assert!(input_string.len() > doc.get_augmented_string().len())
}

#[test]
fn test_delete_all_tokens() {
    let aug = word_aug(Action::Delete, params(None, None, Some((1, 1))), RandomWordModel::from_vec(vec![]), None);
    let input_string = String::from("My new!! input string!");
    let mut doc = Doc::new(&input_string);
    let mut r = rng();
    aug.augment(&mut doc, &mut r);
    assert_eq!(doc.get_augmented_string(), String::from(" !!  !"));
    assert_eq!(doc.get_changed_count(), 4);
}

#[test]
fn test_word_insert_is_a_no_op() {
    let aug = word_aug(Action::Insert, params(None, None, Some((1, 1))), RandomWordModel::from_vec(strs(&["x"])), None);
    let mut doc = Doc::new(&String::from("My new input"));
    let mut r = rng();
    aug.augment(&mut doc, &mut r);
    assert_eq!(doc.get_augmented_string(), "My new input");
    assert_eq!(doc.get_changed_count(), 0);
}

#[test]
fn test_word_no_op_with_zero_fraction() {
    let aug = word_aug(Action::Delete, params(None, None, Some((0, 1))), RandomWordModel::from_vec(vec![]), None);
    let mut doc = Doc::new(&String::from("My new input string!"));
    let mut r = rng();
    aug.augment(&mut doc, &mut r);
    assert_eq!(doc.get_augmented_string(), "My new input string!");
    assert_eq!(doc.get_changed_count(), 0);
}

#[test]
fn test_word_api_list_keeps_positions() {
    let api = RustRandomWordApiClass::new(
        String::from("substitute"),
        None,
        None,
        Some(Fraction::new(1, 1)),
        None,
        None,
        Some(mapping(&[("a", &["A"]), ("b", &["B"]), ("c", &["C"])])),
    );
    let input = strs(&["a", "b", "c", "a b", "zzz"]);
    let mut r = rng();
    let out = api.augment_list_single_thread(input.clone(), &mut r);
    assert_eq!(out, strs(&["A", "B", "C", "A B", "zzz"]));
    let part = api.augment_list_range(&input, 1, 4, &mut r);
    assert_eq!(part, strs(&["B", "C", "A B"]));
}

#[test]
fn test_word_api_string_n_times() {
    let api = RustRandomWordApiClass::new(
        String::from("unknown-action"),
        None,
        None,
        Some(Fraction::new(1, 1)),
        None,
        Some(strs(&["w"])),
        None,
    );
    let mut r = rng();
    let out = api.augment_string_single_thread(String::from("x y"), 3, &mut r);
    assert_eq!(out, strs(&["w w", "w w", "w w"]));
    assert_eq!(api.augment_string_single_thread(String::from("x y"), 0, &mut r).len(), 0);
}

#[test]
fn test_char_api_delete_everything() {
    let api = RustRandomCharApiClass::new(
        String::from("delete"),
        None,
        None,
        Some(Fraction::new(1, 1)),
        None,
        None,
        Some(Fraction::new(1, 1)),
        true,
        true,
        true,
        true,
        String::from("en"),
        None,
        None,
        String::from("adjacent"),
        None,
        None,
    );
    let mut r = rng();
    assert_eq!(api.augment_list_single_thread(strs(&["ab c", "", "!"]), &mut r), strs(&[" ", "", "!"]));
}

#[test]
fn test_swap_chars_case_follows_position() {
    let mut buf = vec!['A', 'b', 'c'];
    swap_chars(&mut buf, 0, 1);
    assert_eq!(buf, vec!['B', 'a', 'c']);
    let mut buf = vec!['a', 'B'];
    swap_chars(&mut buf, 0, 1);
    assert_eq!(buf, vec!['b', 'A']);
    let mut buf = vec!['a', '1'];
    swap_chars(&mut buf, 0, 1);
    assert_eq!(buf, vec!['1', 'a']);
    let mut buf = vec!['X', 'Y', 'z'];
    swap_chars(&mut buf, 2, 0);
    assert_eq!(buf, vec!['Z', 'Y', 'x']);
}

#[test]
fn test_rewrite_token_exact() {
    let picks = vec![None, Some(String::from("xy")), None];
    assert_eq!(rewrite_token("abc", &picks, Action::Substitute), "axyc");
    assert_eq!(rewrite_token("abc", &picks, Action::Insert), "axybc");
    assert_eq!(rewrite_token("abc", &picks, Action::Delete), "ac");
    assert_eq!(rewrite_token("", &vec![], Action::Insert), "");
}

#[test]
fn test_word_swap_partner() {
    let idxs = vec![0, 2, 5];
    let mut r = rng();
    let r = &mut r;
    assert_eq!(get_word_swap_position(0, &idxs, r), Some(2));
    assert_eq!(get_word_swap_position(5, &idxs, r), Some(2));
    let middle = get_word_swap_position(2, &idxs, r);
    assert!(middle == Some(0) || middle == Some(5));
    assert_eq!(get_word_swap_position(3, &idxs, r), None);
    assert_eq!(get_word_swap_position(0, &vec![0], r), None);
}

#[test]
fn test_parse_names() {
    assert_eq!(parse_char_action("insert"), Action::Insert);
    assert_eq!(parse_char_action("swap"), Action::Swap);
    assert_eq!(parse_char_action("delete"), Action::Delete);
    assert_eq!(parse_char_action("other"), Action::Substitute);
    assert_eq!(parse_word_action("insert"), Action::Substitute);
    assert_eq!(parse_swap_mode("middle"), SwapMode::Middle);
    assert_eq!(parse_swap_mode("random"), SwapMode::Random);
    assert_eq!(parse_swap_mode("sideways"), SwapMode::Adjacent);
}

#[test]
fn test_strict_parsing_rejects_unknown_names() {
    assert_eq!(parse_char_action_strict("insert"), Some(Action::Insert));
    assert_eq!(parse_char_action_strict("Insert"), None);
    assert_eq!(parse_word_action_strict("swap"), Some(Action::Swap));
    assert_eq!(parse_word_action_strict("insert"), None);
    assert_eq!(parse_swap_mode_strict("middle"), Some(SwapMode::Middle));
    assert_eq!(parse_swap_mode_strict(""), None);
}

#[test]
fn test_middle_swap_on_two_letter_words_counts_nothing() {
    let aug = RandomCharAugmentor::new(
        Action::Swap,
        params(None, None, Some((1, 1))),
        params(None, None, Some((1, 1))),
        None,
        Arc::new(RandomCharModel::from_candidates(strs(&["z"]))),
        None,
        String::from("middle"),
    );
    let mut doc = Doc::new(&String::from("ab cd"));
    let mut r = rng();
    aug.augment(&mut doc, &mut r);
    assert_eq!(doc.get_augmented_string(), "ab cd");
    assert_eq!(doc.get_changed_count(), 0);
}

#[test]
fn test_char_no_op_with_zero_char_fraction() {
    for action in [Action::Insert, Action::Substitute, Action::Delete, Action::Swap] {
        let aug = RandomCharAugmentor::new(
            action,
            params(None, None, Some((0, 1))),
            params(None, None, Some((1, 1))),
            None,
            Arc::new(RandomCharModel::from_candidates(strs(&["z"]))),
            None,
            String::from("random"),
        );
        let mut doc = Doc::new(&String::from(EN_INPUT));
        let mut r = rng();
        aug.augment(&mut doc, &mut r);
        assert_eq!(doc.get_augmented_string(), EN_INPUT);
        assert_eq!(doc.get_changed_count(), 0);
    }
}

#[test]
fn test_char_delete_count_matches_shortening() {
    let aug = random_char_aug(Action::Delete, "en", &[], "");
    let mut doc = Doc::new(&String::from(EN_INPUT));
    let mut r = rng();
    aug.augment(&mut doc, &mut r);
    let out = doc.get_augmented_string();
    assert!(doc.get_changed_count() > 0);
    assert!(get_chars_len(&out) < get_chars_len(EN_INPUT));
}

#[test]
fn test_repeat_mode_every_round_starts_fresh() {
    let api = RustRandomWordApiClass::new(
        String::from("swap"),
        None,
        None,
        Some(Fraction::new(1, 1)),
        None,
        None,
        None,
    );
    let mut r = rng();
    let out = api.augment_string_single_thread(String::from("Test string!"), 4, &mut r);
    assert_eq!(out, strs(&["Test string!", "Test string!", "Test string!", "Test string!"]));
}
