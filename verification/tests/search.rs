use voca::json::{Json, Member};
use voca::search::{
    escape_span_of_meaning, find_means_collector, naver, parse_response, request_url,
    word_of_items, SearchError,
};
use voca::word::Word;

fn text(s: &str) -> Json {
    Json::Text(String::from(s))
}

fn object(members: Vec<(&str, Json)>) -> Json {
    let mut out = Vec::new();
    for (name, value) in members {
        out.push(Member { name: String::from(name), value });
    }
    Json::Object(out)
}

fn answer(collector: Json) -> Json {
    let first = object(vec![("meansCollector", collector)]);
    let word = object(vec![("items", Json::Array(vec![first]))]);
    let list_map = object(vec![("WORD", word)]);
    let result_map = object(vec![("searchResultListMap", list_map)]);
    object(vec![("searchResultMap", result_map)])
}

fn item(tag: &str, values: &[&str]) -> Json {
    let mut means = Vec::new();
    for value in values {
        means.push(object(vec![("value", text(value))]));
    }
    object(vec![("partOfSpeech", text(tag)), ("means", Json::Array(means))])
}

fn texts(items: &[&str]) -> Vec<String> {
    let mut out = Vec::new();
    for item in items {
        out.push(String::from(*item));
    }
    out
}

#[test]
fn escape_span() {
    let t = "(Abbr.) <span class=\'related_word\' lang=\'en\' >a/c</span>. 계좌";
    let result = escape_span_of_meaning(t);
    assert_eq!(String::from("(Abbr.) a/c. 계좌"), result);
}

#[test]
fn meaning_is_cut_before_it_is_stripped() {
    assert_eq!(escape_span_of_meaning("  <b>run</b> (= <i>dash</i>) quickly"), "run");
    assert_eq!(escape_span_of_meaning("go (\u{2192} <a href='x'>proceed</a>)"), "go");
    assert_eq!(escape_span_of_meaning("(\u{2194} <b>leave</b>)"), "");
}

#[test]
fn meaning_is_not_trimmed_again_after_stripping() {
    assert_eq!(escape_span_of_meaning("<b> run </b>"), " run ");
}

#[test]
fn marker_inside_a_tag_cuts_too() {
    assert_eq!(escape_span_of_meaning("a <b title='(= x'>c</b>"), "a <b title='");
}

#[test]
fn request_url_ends_with_the_spelling() {
    assert_eq!(
        request_url("devour"),
        "https://en.dict.naver.com/api3/enko/search?lang=en&query=devour"
    );
    assert_eq!(request_url(""), "https://en.dict.naver.com/api3/enko/search?lang=en&query=");
}

#[test]
fn well_formed_answer_is_parsed() {
    let root = answer(Json::Array(vec![item("verb", &["to eat"])]));
    let expected = Word { pos: Some(texts(&["verb"])), means: vec![texts(&["to eat"])] };
    assert_eq!(parse_response(&root), Ok(expected));
}

#[test]
fn well_formed_body_is_parsed() {
    let body = "{\"searchResultMap\":{\"searchResultListMap\":{\"WORD\":{\"items\":[{\"meansCollector\":[{\"partOfSpeech\":\"verb\",\"means\":[{\"value\":\"to eat\"}]}]}]}}}}";
    let expected = Word { pos: Some(texts(&["verb"])), means: vec![texts(&["to eat"])] };
    assert_eq!(naver(body), Ok(expected));
}

#[test]
fn answer_without_result_map_is_refused() {
    let root = object(vec![("other", Json::Null)]);
    assert_eq!(parse_response(&root), Err(SearchError::InvalidResponseShape));
    assert_eq!(naver("{\"other\": null}"), Err(SearchError::InvalidResponseShape));
    assert_eq!(naver("{}"), Err(SearchError::InvalidResponseShape));
}

#[test]
fn answer_with_a_broken_path_is_refused() {
    assert_eq!(parse_response(&Json::Null), Err(SearchError::InvalidResponseShape));
    assert_eq!(parse_response(&Json::Array(Vec::new())), Err(SearchError::InvalidResponseShape));
    assert_eq!(parse_response(&answer(Json::Null)), Err(SearchError::InvalidResponseShape));
    assert_eq!(parse_response(&answer(text("x"))), Err(SearchError::InvalidResponseShape));
    assert_eq!(
        parse_response(&answer(object(Vec::new()))),
        Err(SearchError::InvalidResponseShape)
    );
    let no_items = object(vec![(
        "searchResultMap",
        object(vec![(
            "searchResultListMap",
            object(vec![("WORD", object(vec![("items", Json::Array(Vec::new()))]))]),
        )]),
    )]);
    assert_eq!(parse_response(&no_items), Err(SearchError::InvalidResponseShape));
    let items_no_array = object(vec![(
        "searchResultMap",
        object(vec![(
            "searchResultListMap",
            object(vec![("WORD", object(vec![("items", object(Vec::new()))]))]),
        )]),
    )]);
    assert_eq!(parse_response(&items_no_array), Err(SearchError::InvalidResponseShape));
}

#[test]
fn body_that_is_no_json_is_refused() {
    assert_eq!(naver(""), Err(SearchError::InvalidJson));
    assert_eq!(naver("<html></html>"), Err(SearchError::InvalidJson));
    assert_eq!(naver("{\"searchResultMap\":"), Err(SearchError::InvalidJson));
}

#[test]
fn empty_collector_gives_an_empty_word() {
    let root = answer(Json::Array(Vec::new()));
    let expected = Word { pos: Some(Vec::new()), means: Vec::new() };
    assert_eq!(parse_response(&root), Ok(expected));
    assert!(matches!(find_means_collector(&root), Some(items) if items.is_empty()));
}

#[test]
fn missing_tag_leaves_groups_ahead_of_tags() {
    let untagged = object(vec![(
        "means",
        Json::Array(vec![object(vec![("value", text("first"))])]),
    )]);
    let wrong_tag = object(vec![
        ("partOfSpeech", Json::Number),
        ("means", Json::Array(vec![object(vec![("value", text("second"))])])),
    ]);
    let items = vec![untagged, item("noun", &["third"]), wrong_tag];
    let expected = Word {
        pos: Some(texts(&["noun"])),
        means: vec![texts(&["first"]), texts(&["third"]), texts(&["second"])],
    };
    assert_eq!(word_of_items(&items), expected);
    assert_eq!(parse_response(&answer(Json::Array(items))), Ok(expected));
}

#[test]
fn malformed_meanings_are_passed_over() {
    let means = Json::Array(vec![
        object(vec![("value", text("kept"))]),
        object(vec![("value", Json::Null)]),
        object(vec![("other", text("x"))]),
        text("bare"),
        object(vec![("value", text(" also <b>kept</b> (= x)"))]),
    ]);
    let items = vec![
        object(vec![("partOfSpeech", text("verb")), ("means", means)]),
        object(vec![("partOfSpeech", text("noun")), ("means", text("no array"))]),
        object(vec![("partOfSpeech", text("adverb"))]),
        Json::Null,
    ];
    let expected = Word {
        pos: Some(texts(&["verb", "noun", "adverb"])),
        means: vec![texts(&["kept", "also kept"]), texts(&[]), texts(&[]), texts(&[])],
    };
    assert_eq!(word_of_items(&items), expected);
}

#[test]
fn only_the_first_of_the_items_is_read() {
    let first = object(vec![("meansCollector", Json::Array(vec![item("verb", &["one"])]))]);
    let second = object(vec![("meansCollector", Json::Array(vec![item("noun", &["two"])]))]);
    let word = object(vec![("items", Json::Array(vec![first, second]))]);
    let root = object(vec![(
        "searchResultMap",
        object(vec![("searchResultListMap", object(vec![("WORD", word)]))]),
    )]);
    let expected = Word { pos: Some(texts(&["verb"])), means: vec![texts(&["one"])] };
    assert_eq!(parse_response(&root), Ok(expected));
}

#[test]
fn devour_from_a_canned_answer() {
    let body = "{\"searchResultMap\":{\"searchResultListMap\":{\"WORD\":{\"query\":\"devour\",\"total\":1,\"items\":[{\"rank\":\"1\",\"expEntry\":\"<strong>devour</strong>\",\"meansCollector\":[{\"partOfSpeech\":\"동사\",\"means\":[{\"order\":\"1\",\"value\":\"(특히 몹시 배가 고파서) 걸신 들린 듯 먹다\"},{\"order\":\"2\",\"value\":\"(엄청난 관심과 열의로) 집어삼킬듯이[빨아들이듯이] 읽다[보다]\"},{\"order\":\"3\",\"value\":\"집어삼키다, 파괴하다 (=<span class='related_word' lang='en' >destroy</span>)\"}]}]}]},\"MEANING\":{\"items\":[]}}}}";
    let pos = vec![String::from("동사")];
    let means = vec![vec![
        String::from("(특히 몹시 배가 고파서) 걸신 들린 듯 먹다"),
        String::from("(엄청난 관심과 열의로) 집어삼킬듯이[빨아들이듯이] 읽다[보다]"),
        String::from("집어삼키다, 파괴하다"),
    ]];
    let devour = Word { pos: Some(pos), means };
    assert_eq!(naver(body), Ok(devour));
}
