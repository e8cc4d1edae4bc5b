use jarvis_core::command::{get_command_by_id, list_paths, JCommand, JCommandsList, PhraseSet};
use jarvis_core::fuzzy::{begin_fetch, finish_fetch, fuzzy_candidates, normalize_phrase, pick_match, FetchStep};
use jarvis_core::mental_math::{looks_like_mental_math, token_is_number_like, try_fetch_mental_math};

fn cmd(id: &str, lang: &str, phrases: &[&str]) -> JCommand {
    JCommand {
        id: id.to_string(),
        cmd_type: "voice".to_string(),
        exe_path: String::new(),
        exe_args: vec![],
        cli_cmd: String::new(),
        cli_args: vec![],
        script: String::new(),
        sandbox: String::new(),
        timeout: 0,
        phrases: vec![PhraseSet {
            lang: lang.to_string(),
            phrases: phrases.iter().map(|s| s.to_string()).collect(),
        }],
        sounds: vec![],
    }
}

fn packs() -> Vec<JCommandsList> {
    vec![
        JCommandsList {
            path: "packs/a".to_string(),
            commands: vec![cmd("hello", "en", &["Hello there", " hi "]), cmd("time", "en", &["what time is it"])],
        },
        JCommandsList {
            path: "packs/b".to_string(),
            commands: vec![cmd("mental_math", "en", &["calculate"]), cmd("time", "ru", &["который час"])],
        },
    ]
}

#[test]
fn command_by_id_returns_first_in_pack_order() {
    let p = packs();
    let (path, c) = get_command_by_id(&p, "time").unwrap();
    assert_eq!(path, "packs/a");
    assert_eq!(c.phrases[0].lang, "en");
    let (path, c) = get_command_by_id(&p, "mental_math").unwrap();
    assert_eq!(path, "packs/b");
    assert_eq!(c.id, "mental_math");
    assert!(get_command_by_id(&p, "nope").is_none());
    assert!(get_command_by_id(&[], "time").is_none());
}

#[test]
fn paths_in_pack_order() {
    let p = packs();
    assert_eq!(list_paths(&p), vec!["packs/a", "packs/b"]);
    assert!(list_paths(&[]).is_empty());
}

#[test]
fn phrases_by_language() {
    let c = cmd("x", "ru", &["раз", "два"]);
    assert_eq!(c.get_phrases("ru"), vec!["раз".to_string(), "два".to_string()]);
    assert!(c.get_phrases("en").is_empty());
}

#[test]
fn number_like_tokens() {
    assert!(token_is_number_like("42", "en"));
    assert!(token_is_number_like("(42),", "ru"));
    assert!(token_is_number_like("Five", "en"));
    assert!(token_is_number_like("пять", "ru"));
    assert!(token_is_number_like("ПЯТЬ!", "ru"));
    assert!(!token_is_number_like("five", "ru"));
    assert!(!token_is_number_like("пять", "en"));
    assert!(token_is_number_like("five", "de"));
    assert!(token_is_number_like("пять", "de"));
    assert!(!token_is_number_like("hello", "en"));
    assert!(!token_is_number_like("...", "en"));
    assert!(!token_is_number_like("", "en"));
    assert!(!token_is_number_like("4-2", "en"));
}

#[test]
fn mental_math_phrases() {
    assert!(looks_like_mental_math("2+2", "en"));
    assert!(looks_like_mental_math("сколько будет 7 × 8", "ru"));
    assert!(!looks_like_mental_math("a+b", "en"));
    assert!(looks_like_mental_math("два плюс три", "ru"));
    assert!(looks_like_mental_math("what is five plus six", "en"));
    assert!(!looks_like_mental_math("температура плюс 5", "ru"));
    assert!(!looks_like_mental_math("two plus three", "ru"));
    assert!(looks_like_mental_math("two plus three", "xx"));
    assert!(looks_like_mental_math("десять разделить на два", "ru"));
    assert!(!looks_like_mental_math("десять разделить два", "ru"));
    assert!(looks_like_mental_math("ten over two", "en"));
    assert!(!looks_like_mental_math("play some music", "en"));
}

#[test]
fn mental_math_goes_to_its_command() {
    let p = packs();
    let (path, c) = try_fetch_mental_math("2 + 3", "en", &p).unwrap();
    assert_eq!(path, "packs/b");
    assert_eq!(c.id, "mental_math");
    assert!(try_fetch_mental_math("hello there", "en", &p).is_none());
    let without = vec![JCommandsList { path: "x".into(), commands: vec![cmd("a", "en", &["b"])] }];
    assert!(try_fetch_mental_math("2 + 3", "en", &without).is_none());
}

#[test]
fn phrase_normalization() {
    assert_eq!(normalize_phrase("  HeLLo World \n"), "hello world");
    assert_eq!(normalize_phrase("\u{3000}ПРИВЕТ"), "привет");
    assert_eq!(normalize_phrase("   "), "");
}

#[test]
fn candidates_in_pack_command_phrase_order() {
    let p = packs();
    let c = fuzzy_candidates(&p, "en");
    let got: Vec<(usize, usize, String)> = c.into_iter().map(|c| (c.list, c.command, c.phrase)).collect();
    assert_eq!(
        got,
        vec![
            (0, 0, "hello there".to_string()),
            (0, 0, "hi".to_string()),
            (0, 1, "what time is it".to_string()),
            (1, 0, "calculate".to_string()),
        ]
    );
    let ru = fuzzy_candidates(&p, "ru");
    assert_eq!(ru.len(), 1);
    assert_eq!((ru[0].list, ru[0].command), (1, 1));
}

#[test]
fn choice_among_scores() {
    assert_eq!(pick_match(&vec![10, 70, 80, 80, 20], 65, 99), Some(2));
    assert_eq!(pick_match(&vec![10, 60, 65], 65, 99), None);
    assert_eq!(pick_match(&vec![90, 99, 100], 65, 99), Some(1));
    assert_eq!(pick_match(&vec![], 65, 99), None);
    assert_eq!(pick_match(&vec![66], 65, 99), Some(0));
}

#[test]
fn fetching_in_two_steps() {
    let p = packs();
    assert!(matches!(begin_fetch("   ", "en", &p), FetchStep::Found(None)));
    match begin_fetch(" 2 + 2 ", "en", &p) {
        FetchStep::Found(Some((path, c))) => {
            assert_eq!(path, "packs/b");
            assert_eq!(c.id, "mental_math");
        }
        _ => panic!("expected the mental_math command"),
    }
    match begin_fetch("  What TIME is it ", "en", &p) {
        FetchStep::Score { phrase, candidates } => {
            assert_eq!(phrase, "what time is it");
            assert_eq!(candidates.len(), 4);
            let keys = vec![10, 20, 100, 30];
            let (path, c) = finish_fetch(&p, &candidates, &keys, 65, 99).unwrap();
            assert_eq!(path, "packs/a");
            assert_eq!(c.id, "time");
            let low = vec![10, 20, 30, 40];
            assert!(finish_fetch(&p, &candidates, &low, 65, 99).is_none());
            let tie = vec![70, 80, 80, 10];
            let (_, c) = finish_fetch(&p, &candidates, &tie, 65, 99).unwrap();
            assert_eq!(c.id, "hello");
        }
        _ => panic!("expected candidates to score"),
    }
}

fn plan_of(step: FetchStep) -> (Option<String>, Option<(String, Vec<(usize, usize, String)>)>) {
    match step {
        FetchStep::Found(f) => (f.map(|(_, c)| c.id.clone()), None),
        FetchStep::Score { phrase, candidates } => (
            None,
            Some((phrase, candidates.into_iter().map(|c| (c.list, c.command, c.phrase)).collect())),
        ),
    }
}

#[test]
fn phrase_and_normalized_phrase_fetch_alike() {
    let p = packs();
    for raw in ["  OPEN Browser ", " What TIME is it", " 2 + 2 ", "   ", "Hi"] {
        let n = normalize_phrase(raw);
        assert_eq!(plan_of(begin_fetch(raw, "en", &p)), plan_of(begin_fetch(&n, "en", &p)));
    }
}
