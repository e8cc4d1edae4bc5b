use jarvis_core::exec::{
    ahk_candidates, ahk_cmdline, ahk_not_found_message, command_step, is_ahk_extension, lua_script_name,
    lua_script_not_found_message, windows_shells, CommandStep,
};
use jarvis_core::recorder::{
    get_audio_device_name, init_microphone, init_needed, read_microphone, start_recording, stop_needed,
    stop_recording, RecorderState,
};
use jarvis_core::speech::{culture_for_ui_lang, escape_single_quotes, espeak_voice, is_safe_culture, sapi_script, say_voice, speech_text};

#[test]
fn steps_by_command_type() {
    assert!(matches!(command_step("voice"), CommandStep::Finished(Ok(true))));
    assert!(matches!(command_step("stop_chaining"), CommandStep::Finished(Ok(false))));
    assert!(matches!(command_step("ahk"), CommandStep::RunAhk));
    assert!(matches!(command_step("cli"), CommandStep::RunCli));
    assert!(matches!(command_step("terminate"), CommandStep::Terminate));
    assert!(matches!(command_step("lua"), CommandStep::RunLua));
    match command_step("lua5") {
        CommandStep::Finished(Err(m)) => assert_eq!(m, "Command type unknown: lua5"),
        _ => panic!("expected an error"),
    }
    match command_step("Voice") {
        CommandStep::Finished(Err(m)) => assert_eq!(m, "Command type unknown: Voice"),
        _ => panic!("expected an error"),
    }
}

#[test]
fn ahk_places_to_look() {
    let c = ahk_candidates("tools/run.EXE");
    let got: Vec<(String, bool)> = c.into_iter().map(|c| (c.path, c.local)).collect();
    assert_eq!(
        got,
        vec![
            ("tools/run.EXE".to_string(), false),
            ("tools/run.EXE".to_string(), true),
            ("tools/run.ahk".to_string(), false),
            ("tools/run.ahk".to_string(), true),
        ]
    );
    assert_eq!(ahk_candidates("script.ahk").len(), 2);
    assert_eq!(ahk_candidates("exe").len(), 2);
    assert_eq!(ahk_candidates(".exe")[2].path, ".ahk");
    assert_eq!(
        ahk_not_found_message("x.exe"),
        "AHK target not found: 'x.exe' (checked absolute/local and .ahk fallback)"
    );
}

#[test]
fn ahk_extension_and_command_line() {
    assert!(is_ahk_extension(Some("ahk")));
    assert!(is_ahk_extension(Some("AhK")));
    assert!(!is_ahk_extension(Some("exe")));
    assert!(!is_ahk_extension(Some("ahkk")));
    assert!(!is_ahk_extension(None));
    assert_eq!(ahk_cmdline("C:\\a b\\s.ahk", &vec!["x".to_string(), "y z".to_string()]), "\"C:\\a b\\s.ahk\" x y z");
    assert_eq!(ahk_cmdline("p", &vec![]), "\"p\"");
}

#[test]
fn shells_for_windows() {
    assert_eq!(
        windows_shells(Some("  \"C:\\Win\\cmd.exe\" "), Some("D:\\Windows")),
        vec![
            "C:\\Win\\cmd.exe".to_string(),
            "cmd".to_string(),
            "D:\\Windows\\System32\\cmd.exe".to_string(),
            "D:\\Windows\\Sysnative\\cmd.exe".to_string(),
        ]
    );
    assert_eq!(
        windows_shells(Some("  "), None),
        vec![
            "cmd".to_string(),
            "C:\\Windows\\System32\\cmd.exe".to_string(),
            "C:\\Windows\\Sysnative\\cmd.exe".to_string(),
        ]
    );
    assert_eq!(windows_shells(None, Some("\"\"")), vec!["cmd".to_string()]);
}

#[test]
fn speech_helpers() {
    assert_eq!(speech_text("  hello \n"), Some("hello".to_string()));
    assert_eq!(speech_text(" \t "), None);
    assert_eq!(culture_for_ui_lang("ru"), "ru-RU");
    assert_eq!(culture_for_ui_lang("en"), "en-US");
    assert_eq!(culture_for_ui_lang("ua"), "uk-UA");
    assert_eq!(culture_for_ui_lang("de"), "en-US");
    assert!(is_safe_culture("uk-UA"));
    assert!(!is_safe_culture("en'; rm"));
    assert_eq!(escape_single_quotes("C:\\it's\\f'"), "C:\\it''s\\f''");
    let script = sapi_script("ru-RU", "C:\\t''x.txt");
    assert_eq!(
        script,
        "Add-Type -AssemblyName System.Speech\n$s = New-Object System.Speech.Synthesis.SpeechSynthesizer\nforeach ($iv in $s.GetInstalledVoices()) {\nif ($iv.VoiceInfo.Culture.Name -eq 'ru-RU') {\n$s.SelectVoice($iv.VoiceInfo.Name)\nbreak\n}\n}\n$s.Speak((Get-Content -LiteralPath 'C:\\t''x.txt' -Raw -Encoding UTF8))\n"
    );
    assert_eq!(say_voice("ru"), Some("Milena"));
    assert_eq!(say_voice("ua"), Some("Lesya"));
    assert_eq!(say_voice("en"), None);
    assert_eq!(espeak_voice("ru"), "ru");
    assert_eq!(espeak_voice("ua"), "uk");
    assert_eq!(espeak_voice("en"), "en");
    assert_eq!(espeak_voice("fr"), "en");
}

#[test]
fn recorder_lifecycle() {
    let mut st = RecorderState::new();
    assert!(init_needed(&st));
    assert!(!init_microphone(&mut st, Some(false)));
    assert!(init_needed(&st));
    assert!(init_microphone(&mut st, Some(true)));
    assert!(!init_needed(&st));
    assert!(init_microphone(&mut st, None));
    assert!(!stop_needed(&st));
    assert_eq!(stop_recording(&mut st, None), Ok(()));
    assert_eq!(start_recording(&mut st, false), Err(()));
    assert!(!st.recording);
    assert_eq!(start_recording(&mut st, true), Ok(()));
    assert!(st.recording);
    assert!(stop_needed(&st));
    assert_eq!(stop_recording(&mut st, Some(false)), Err(()));
    assert!(st.recording);
    assert_eq!(stop_recording(&mut st, Some(true)), Ok(()));
    assert!(!st.recording);
}

#[test]
fn reading_frames() {
    let mut st = RecorderState::new();
    let mut buf = [7i16; 4];
    assert!(!read_microphone(&mut st, None, &mut buf, 5000));
    assert_eq!(buf, [7; 4]);
    st.initialized = true;
    assert!(!read_microphone(&mut st, Some(Ok(vec![1, 2, 3, 4])), &mut buf, 5000));
    assert_eq!(buf, [1, 2, 3, 4]);
    assert!(read_microphone(&mut st, Some(Err(())), &mut buf, 5000));
    assert_eq!(buf, [0; 4]);
    assert_eq!(st.last_read_err_log_ms, 5000);
    buf = [9; 4];
    assert!(!read_microphone(&mut st, Some(Err(())), &mut buf, 5999));
    assert_eq!(buf, [0; 4]);
    assert_eq!(st.last_read_err_log_ms, 5000);
    assert!(read_microphone(&mut st, Some(Err(())), &mut buf, 6000));
    assert!(!read_microphone(&mut st, Some(Err(())), &mut buf, 100));
    assert_eq!(st.last_read_err_log_ms, 6000);
}

#[test]
fn device_names() {
    let devs = vec!["Mic A".to_string(), "Mic B".to_string()];
    assert_eq!(get_audio_device_name(-1, &devs), "System Default");
    assert_eq!(get_audio_device_name(1, &devs), "Mic B");
    assert_eq!(get_audio_device_name(0, &devs), "Mic A");
    assert_eq!(get_audio_device_name(5, &devs), "Mic A");
    assert_eq!(get_audio_device_name(-3, &devs), "Mic A");
    assert_eq!(get_audio_device_name(2, &vec![]), "");
    assert_eq!(get_audio_device_name(-1, &vec![]), "System Default");
}

#[test]
fn every_culture_is_safe_for_the_script() {
    for lang in ["ru", "en", "ua", "de", "", "x'y"] {
        assert!(is_safe_culture(culture_for_ui_lang(lang)));
    }
}

#[test]
fn start_then_stop_returns_to_idle() {
    let mut st = RecorderState::new();
    assert!(init_microphone(&mut st, Some(true)));
    assert_eq!(start_recording(&mut st, true), Ok(()));
    assert!(stop_needed(&st));
    assert_eq!(stop_recording(&mut st, Some(true)), Ok(()));
    assert!(!stop_needed(&st));
    assert!(st.initialized && !st.recording);
}

#[test]
fn lua_script_choice() {
    assert_eq!(lua_script_name(""), "script.lua");
    assert_eq!(lua_script_name("main.lua"), "main.lua");
    assert_eq!(lua_script_name(" "), " ");
    assert_eq!(
        lua_script_not_found_message("packs/x/script.lua"),
        "Lua script not found: packs/x/script.lua"
    );
}
