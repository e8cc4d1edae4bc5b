use jarvis_core::command::{JCommand, JCommandsList, PhraseSet};
use jarvis_core::hashing::{commands_hash, to_hex_lower};
use jarvis_core::legacy::{
    commands_from_legacy, sanitize_id, LegacyCommand, LegacyEntry, LegacyFile, LegacyVoice,
};
use jarvis_core::packs::{collect_packs, PackSource};
use sha2::Digest;

fn s(v: &[&str]) -> Vec<String> {
    v.iter().map(|x| x.to_string()).collect()
}

fn entry(action: &str, phrases: &[&str], voice_phrases: &[&str], script: &str, sandbox: &str, timeout: Option<u64>) -> LegacyEntry {
    LegacyEntry {
        command: LegacyCommand {
            action: action.to_string(),
            exe_path: "run.exe".to_string(),
            exe_args: s(&["-a"]),
            cli_cmd: String::new(),
            cli_args: vec![],
            script: script.to_string(),
            sandbox: sandbox.to_string(),
            timeout,
        },
        voice: LegacyVoice { sounds: s(&["ok.wav"]), phrases: s(voice_phrases) },
        phrases: s(phrases),
    }
}

#[test]
fn sanitized_ids() {
    assert_eq!(sanitize_id("my-pack 1"), "my_pack_1");
    assert_eq!(sanitize_id("jarvis"), "jarvis");
    assert_eq!(sanitize_id("Пак_2"), "____2");
    assert_eq!(sanitize_id(""), "");
}

#[test]
fn legacy_pack_commands() {
    let file = LegacyFile {
        list: vec![
            entry("ahk", &[" open browser ", ""], &["ignored"], "", "", None),
            entry("voice", &[], &["  "], "", "", Some(5)),
            entry("lua", &[], &["run script"], "s.lua", "", Some(7)),
            entry("lua", &[], &["run strict"], "s.lua", "full", None),
        ],
    };
    let out = commands_from_legacy(&file, "my pack").unwrap();
    assert_eq!(out.len(), 3);
    assert_eq!(out[0].id, "my_pack_cmd_0");
    assert_eq!(out[0].cmd_type, "ahk");
    assert_eq!(out[0].phrases.len(), 1);
    assert_eq!(out[0].phrases[0].lang, "ru");
    assert_eq!(out[0].phrases[0].phrases, s(&["open browser"]));
    assert_eq!(out[0].timeout, 10_000);
    assert_eq!(out[0].sandbox, "");
    assert_eq!(out[0].exe_path, "run.exe");
    assert_eq!(out[0].exe_args, s(&["-a"]));
    assert_eq!(out[0].sounds, s(&["ok.wav"]));
    assert_eq!(out[1].id, "my_pack_cmd_2");
    assert_eq!(out[1].phrases[0].phrases, s(&["run script"]));
    assert_eq!(out[1].sandbox, "standard");
    assert_eq!(out[1].timeout, 7);
    assert_eq!(out[2].id, "my_pack_cmd_3");
    assert_eq!(out[2].sandbox, "full");
}

#[test]
fn legacy_pack_without_phrases_is_an_error() {
    let file = LegacyFile { list: vec![entry("voice", &[" "], &["x"], "", "", None)] };
    assert_eq!(
        commands_from_legacy(&file, "empty").err().unwrap(),
        "Legacy YAML pack 'empty' produced no commands (empty or missing phrases)"
    );
    let none = LegacyFile { list: vec![] };
    assert!(commands_from_legacy(&none, "e").is_err());
}

#[test]
fn legacy_ids_count_past_ten() {
    let list: Vec<LegacyEntry> = (0..12).map(|i| entry("voice", &[&format!("p{}", i)], &[], "", "", None)).collect();
    let out = commands_from_legacy(&LegacyFile { list }, "p").unwrap();
    assert_eq!(out[11].id, "p_cmd_11");
    assert_eq!(out[10].id, "p_cmd_10");
}

fn simple(id: &str) -> JCommand {
    JCommand {
        id: id.to_string(),
        cmd_type: "voice".to_string(),
        exe_path: String::new(),
        exe_args: vec![],
        cli_cmd: String::new(),
        cli_args: vec![],
        script: String::new(),
        sandbox: String::new(),
        timeout: 0,
        phrases: vec![
            PhraseSet { lang: "en".to_string(), phrases: s(&[&format!("{} a", id), &format!("{} b", id)]) },
            PhraseSet { lang: "ru".to_string(), phrases: s(&["раз"]) },
        ],
        sounds: vec![],
    }
}

#[test]
fn packs_are_collected_in_order() {
    let sources = vec![
        PackSource::Missing,
        PackSource::Toml { path: "a".into(), commands: Some(vec![simple("x")]) },
        PackSource::Toml { path: "bad".into(), commands: None },
        PackSource::Yaml { path: "y".into(), pack_name: "yy".into(), file: Some(LegacyFile { list: vec![entry("voice", &["hi"], &[], "", "", None)] }) },
        PackSource::Yaml { path: "z".into(), pack_name: "zz".into(), file: Some(LegacyFile { list: vec![] }) },
        PackSource::Yaml { path: "w".into(), pack_name: "ww".into(), file: None },
    ];
    let packs = collect_packs(sources).unwrap();
    assert_eq!(packs.len(), 2);
    assert_eq!(packs[0].path, "a");
    assert_eq!(packs[0].commands[0].id, "x");
    assert_eq!(packs[1].path, "y");
    assert_eq!(packs[1].commands[0].id, "yy_cmd_0");
}

#[test]
fn no_packs_is_an_error() {
    assert_eq!(collect_packs(vec![]).err().unwrap(), "No commands found");
    assert_eq!(
        collect_packs(vec![PackSource::Missing, PackSource::Toml { path: "p".into(), commands: None }]).err().unwrap(),
        "No commands found"
    );
}

#[test]
fn hex_is_lowercase_two_digits_per_byte() {
    assert_eq!(to_hex_lower(&vec![0x0a, 0x14, 0x1e, 0xff, 0x00]), "0a141eff00");
    assert_eq!(to_hex_lower(&vec![]), "");
}

#[test]
fn hash_is_sha256_of_sorted_ids_and_phrases() {
    let packs = vec![
        JCommandsList { path: "p1".into(), commands: vec![simple("zeta"), simple("alpha")] },
        JCommandsList { path: "p2".into(), commands: vec![simple("mid")] },
    ];
    let h = commands_hash(&packs, "en");
    let expected = sha2::Sha256::digest(b"en|alphaalpha aalpha bmidmid amid bzetazeta azeta b");
    let expected: String = expected.iter().map(|b| format!("{:02x}", b)).collect();
    assert_eq!(h, expected);
    assert_eq!(h.len(), 64);
    let hr = commands_hash(&packs, "ru");
    let expected_ru = sha2::Sha256::digest("ru|alphaразmidразzetaраз".as_bytes());
    let expected_ru: String = expected_ru.iter().map(|b| format!("{:02x}", b)).collect();
    assert_eq!(hr, expected_ru);
}

#[test]
fn hash_ignores_pack_order() {
    let a = vec![
        JCommandsList { path: "p1".into(), commands: vec![simple("b"), simple("a")] },
        JCommandsList { path: "p2".into(), commands: vec![simple("c")] },
    ];
    let b = vec![
        JCommandsList { path: "p2".into(), commands: vec![simple("c")] },
        JCommandsList { path: "p1".into(), commands: vec![simple("a"), simple("b")] },
    ];
    assert_eq!(commands_hash(&a, "en"), commands_hash(&b, "en"));
    assert_ne!(commands_hash(&a, "en"), commands_hash(&a, "ru"));
}

#[test]
fn sanitizing_twice_changes_nothing() {
    for id in ["my-pack 1", "Пак_2", "a.b/c", "ok_1"] {
        let once = sanitize_id(id);
        assert_eq!(sanitize_id(&once), once);
        assert_eq!(once.chars().count(), id.chars().count());
        assert!(once.chars().all(|c| c.is_ascii_alphanumeric() || c == '_'));
    }
}

#[test]
fn legacy_ids_differ_and_phrases_are_trimmed() {
    let list: Vec<LegacyEntry> = (0..25)
        .map(|i| entry("voice", &[&format!("  phrase {} ", i), "\t"], &[], "", "", None))
        .collect();
    let out = commands_from_legacy(&LegacyFile { list }, "pack").unwrap();
    let mut ids: Vec<&str> = out.iter().map(|c| c.id.as_str()).collect();
    ids.sort();
    ids.dedup();
    assert_eq!(ids.len(), 25);
    for c in &out {
        for p in &c.phrases[0].phrases {
            assert!(!p.is_empty());
            assert_eq!(p.trim(), p);
        }
    }
}
