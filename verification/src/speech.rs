//! Text to speech with the tools of the operating system: what is said, in which voice,
//! and the script handed to Windows SAPI. Running the tools happens elsewhere.
use vstd::prelude::*;
use crate::text::{chars_of, is_ascii_alnum, is_ascii_alphanumeric, push_char, push_str, str_eq, trim, trim_str};

verus! {

/// The text to speak: `text` trimmed, `None` when nothing is left.
pub fn speech_text(text: &str) -> (r: Option<String>)
    ensures
        r is None <==> trim(text@).len() == 0,
        r matches Some(t) ==> t@ == trim(text@),
{
    let t = trim_str(text);
    if t.as_str().is_empty() {
        None
    } else {
        Some(t)
    }
}

/// The BCP 47 culture used to pick a voice for a UI language.
pub open spec fn culture_of(lang: Seq<char>) -> Seq<char> {
    if lang == "ru"@ {
        "ru-RU"@
    } else if lang == "en"@ {
        "en-US"@
    } else if lang == "ua"@ {
        "uk-UA"@
    } else {
        "en-US"@
    }
}

/// The BCP 47 culture for a UI language: `ru-RU`, `en-US` or `uk-UA`, `en-US` for others.
pub fn culture_for_ui_lang(lang: &str) -> (r: &'static str)
    ensures
        r@ == culture_of(lang@),
{
    if str_eq(lang, "ru") {
        "ru-RU"
    } else if str_eq(lang, "en") {
        "en-US"
    } else if str_eq(lang, "ua") {
        "uk-UA"
    } else {
        "en-US"
    }
}

/// Only ASCII letters, digits and `-`: safe to put in a PowerShell string literal.
pub open spec fn safe_culture(c: Seq<char>) -> bool {
    forall|i: int| 0 <= i < c.len() ==> is_ascii_alnum(#[trigger] c[i]) || c[i] == '-'
}

/// Whether the culture name is safe to put in the SAPI script.
pub fn is_safe_culture(culture: &str) -> (r: bool)
    ensures
        r == safe_culture(culture@),
{
    let v = chars_of(culture);
    let mut i: usize = 0;
    while i < v.len()
        invariant
            i <= v@.len(),
            v@ == culture@,
            forall|k: int| 0 <= k < i ==> is_ascii_alnum(#[trigger] v@[k]) || v@[k] == '-',
        decreases v@.len() - i,
    {
        if !(is_ascii_alphanumeric(v[i]) || v[i] == '-') {
            return false;
        }
        i += 1;
    }
    true
}

/// `s` with every `'` doubled.
pub open spec fn quotes_doubled(s: Seq<char>) -> Seq<char>
    decreases s.len(),
{
    if s.len() == 0 {
        Seq::empty()
    } else {
        let r = quotes_doubled(s.drop_last());
        if s.last() == '\'' {
            r + seq!['\'', '\'']
        } else {
            r.push(s.last())
        }
    }
}

/// Doubles every `'` of `s`, for a PowerShell single-quoted string.
pub fn escape_single_quotes(s: &str) -> (r: String)
    ensures
        r@ == quotes_doubled(s@),
{
    let v = chars_of(s);
    let mut r = String::new();
    let mut i: usize = 0;
    while i < v.len()
        invariant
            i <= v@.len(),
            v@ == s@,
            r@ == quotes_doubled(v@.take(i as int)),
        decreases v@.len() - i,
    {
        assert(v@.take(i + 1).drop_last() =~= v@.take(i as int));
        if v[i] == '\'' {
            push_char(&mut r, '\'');
            push_char(&mut r, '\'');
            assert(r@ =~= quotes_doubled(v@.take(i + 1)));
        } else {
            push_char(&mut r, v[i]);
        }
        i += 1;
    }
    assert(v@.take(v@.len() as int) =~= v@);
    r
}

/// The PowerShell script that speaks the text of the file at `path` (already escaped) with
/// a voice of `culture` when one is installed.
pub open spec fn sapi_script_text(culture: Seq<char>, path: Seq<char>) -> Seq<char> {
    "Add-Type -AssemblyName System.Speech\n$s = New-Object System.Speech.Synthesis.SpeechSynthesizer\nforeach ($iv in $s.GetInstalledVoices()) {\nif ($iv.VoiceInfo.Culture.Name -eq '"@
        + culture
        + "') {\n$s.SelectVoice($iv.VoiceInfo.Name)\nbreak\n}\n}\n$s.Speak((Get-Content -LiteralPath '"@
        + path + "' -Raw -Encoding UTF8))\n"@
}

/// The Windows SAPI script for `culture` and the escaped path of the text file.
pub fn sapi_script(culture: &str, path_escaped: &str) -> (s: String)
    ensures
        s@ == sapi_script_text(culture@, path_escaped@),
{
    let mut s = "Add-Type -AssemblyName System.Speech\n$s = New-Object System.Speech.Synthesis.SpeechSynthesizer\nforeach ($iv in $s.GetInstalledVoices()) {\nif ($iv.VoiceInfo.Culture.Name -eq '".to_owned();
    push_str(&mut s, culture);
    push_str(&mut s, "') {\n$s.SelectVoice($iv.VoiceInfo.Name)\nbreak\n}\n}\n$s.Speak((Get-Content -LiteralPath '");
    push_str(&mut s, path_escaped);
    push_str(&mut s, "' -Raw -Encoding UTF8))\n");
    s
}

/// The macOS `say` voice for a UI language: `Milena` for `ru`, `Lesya` for `ua`, else the
/// default voice.
pub fn say_voice(lang: &str) -> (r: Option<&'static str>)
    ensures
        lang@ == "ru"@ ==> (r matches Some(v) && v@ == "Milena"@),
        lang@ == "ua"@ ==> (r matches Some(v) && v@ == "Lesya"@),
        lang@ != "ru"@ && lang@ != "ua"@ ==> r is None,
{
    proof {
        reveal_strlit("ru");
        reveal_strlit("ua");
        assert("ru"@[0] != "ua"@[0]);
    }
    if str_eq(lang, "ru") {
        Some("Milena")
    } else if str_eq(lang, "ua") {
        Some("Lesya")
    } else {
        None
    }
}

/// The espeak voice for a UI language: `ru`, `uk` for `ua`, `en` for the others.
pub open spec fn espeak_voice_of(lang: Seq<char>) -> Seq<char> {
    if lang == "ru"@ {
        "ru"@
    } else if lang == "ua"@ {
        "uk"@
    } else {
        "en"@
    }
}

/// The espeak voice for a UI language.
pub fn espeak_voice(lang: &str) -> (r: &'static str)
    ensures
        r@ == espeak_voice_of(lang@),
{
    if str_eq(lang, "ru") {
        "ru"
    } else if str_eq(lang, "ua") {
        "uk"
    } else {
        "en"
    }
}

/// The culture of every UI language passes the safety test applied before it is put in the SAPI
/// script.
pub proof fn law_cultures_are_safe(lang: Seq<char>)
    ensures
        safe_culture(culture_of(lang)),
{
    reveal_strlit("ru-RU");
    reveal_strlit("en-US");
    reveal_strlit("uk-UA");
}

/// Escaping doubles each `'` and keeps every other character as it is: it works character by
/// character, so the escape of two texts joined is the two escapes joined.
pub proof fn law_quotes_doubled(a: Seq<char>, b: Seq<char>, c: char)
    ensures
        quotes_doubled(a + b) == quotes_doubled(a) + quotes_doubled(b),
        quotes_doubled(seq!['\'']) == seq!['\'', '\''],
        c != '\'' ==> quotes_doubled(seq![c]) == seq![c],
    decreases b.len(),
{
    assert(seq!['\''].drop_last() =~= Seq::<char>::empty());
    assert(seq![c].drop_last() =~= Seq::<char>::empty());
    assert(Seq::<char>::empty() + seq!['\'', '\''] =~= seq!['\'', '\'']);
    assert(Seq::<char>::empty().push(c) =~= seq![c]);
    assert(quotes_doubled(Seq::<char>::empty()) =~= Seq::<char>::empty());
    assert(seq!['\''].last() == '\'' && seq![c].last() == c);
    assert(quotes_doubled(seq!['\'']) =~= seq!['\'', '\'']);
    if c != '\'' {
        assert(quotes_doubled(seq![c]) =~= seq![c]);
    }
    if b.len() == 0 {
        assert(a + b =~= a);
        assert(quotes_doubled(a) + quotes_doubled(b) =~= quotes_doubled(a));
    } else {
        law_quotes_doubled(a, b.drop_last(), c);
        assert((a + b).drop_last() =~= a + b.drop_last());
        assert((a + b).last() == b.last());
        if b.last() == '\'' {
            assert(quotes_doubled(a + b) =~= quotes_doubled(a) + quotes_doubled(b));
        } else {
            assert(quotes_doubled(a + b) =~= quotes_doubled(a) + quotes_doubled(b));
        }
    }
}

} // verus!
