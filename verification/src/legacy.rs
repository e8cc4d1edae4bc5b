//! The legacy `command.yaml` pack format (`list` / `command.action` / `voice.phrases`),
//! turned into commands.
use vstd::prelude::*;
use crate::command::{clone_strings, strs, JCommand};
use crate::text::{
    decimal, is_ascii_alnum, is_ws, lemma_decimal_injective, lemma_trim_ends, is_ascii_alphanumeric, push_char, push_decimal, push_str, trim,
    trim_str,
};

verus! {

/// The `command` part of a legacy entry.
pub struct LegacyCommand {
    pub action: String,
    pub exe_path: String,
    pub exe_args: Vec<String>,
    pub cli_cmd: String,
    pub cli_args: Vec<String>,
    pub script: String,
    pub sandbox: String,
    pub timeout: Option<u64>,
}

/// The `voice` part of a legacy entry.
pub struct LegacyVoice {
    pub sounds: Vec<String>,
    pub phrases: Vec<String>,
}

/// One entry of a legacy pack.
pub struct LegacyEntry {
    pub command: LegacyCommand,
    pub voice: LegacyVoice,
    /// Phrases written next to `voice` rather than under it.
    pub phrases: Vec<String>,
}

/// A legacy pack file.
pub struct LegacyFile {
    pub list: Vec<LegacyEntry>,
}

/// The script timeout a legacy command gets when none is given, in milliseconds.
pub const DEFAULT_LEGACY_TIMEOUT_MS: u64 = 10_000;

pub open spec fn sanitize_char(c: char) -> char {
    if is_ascii_alnum(c) || c == '_' {
        c
    } else {
        '_'
    }
}

/// Every character that is not an ASCII letter, digit or `_` replaced by `_`.
pub open spec fn sanitized(s: Seq<char>) -> Seq<char> {
    s.map_values(|c: char| sanitize_char(c))
}

/// Replaces each character of `s` that is not an ASCII letter, digit or `_` by `_`.
pub fn sanitize_id(s: &str) -> (r: String)
    ensures
        r@ == sanitized(s@),
{
    let v = crate::text::chars_of(s);
    let mut r = String::new();
    let mut i: usize = 0;
    while i < v.len()
        invariant
            i <= v@.len(),
            v@ == s@,
            r@ == sanitized(v@.take(i as int)),
        decreases v@.len() - i,
    {
        let c = v[i];
        if is_ascii_alphanumeric(c) || c == '_' {
            push_char(&mut r, c);
        } else {
            push_char(&mut r, '_');
        }
        assert(sanitized(v@.take(i + 1)) =~= sanitized(v@.take(i as int)).push(sanitize_char(c)));
        i += 1;
    }
    assert(v@.take(v@.len() as int) =~= v@);
    r
}

/// The trimmed phrases of `src` that are not empty, in order.
pub open spec fn clean_phrases(src: Seq<Seq<char>>) -> Seq<Seq<char>>
    decreases src.len(),
{
    if src.len() == 0 {
        Seq::empty()
    } else {
        let r = clean_phrases(src.drop_last());
        let t = trim(src.last());
        if t.len() > 0 {
            r.push(t)
        } else {
            r
        }
    }
}

/// The phrases a legacy entry contributes: those next to `voice` when there are any,
/// otherwise those under it; trimmed, without empty ones.
pub open spec fn entry_phrases(e: LegacyEntry) -> Seq<Seq<char>> {
    let src = if e.phrases@.len() > 0 {
        strs(e.phrases@)
    } else {
        strs(e.voice.phrases@)
    };
    clean_phrases(src)
}

/// Id of the legacy command at position `idx` of pack `pack`.
pub open spec fn legacy_id(pack: Seq<char>, idx: nat) -> Seq<char> {
    sanitized(pack) + "_cmd_"@ + decimal(idx)
}

/// Sandbox of a legacy command: none without a script, `standard` when unset.
pub open spec fn legacy_sandbox(c: LegacyCommand) -> Seq<char> {
    if c.script@.len() == 0 {
        Seq::empty()
    } else if c.sandbox@.len() == 0 {
        "standard"@
    } else {
        c.sandbox@
    }
}

pub open spec fn legacy_timeout(c: LegacyCommand) -> u64 {
    match c.timeout {
        Some(t) => t,
        None => DEFAULT_LEGACY_TIMEOUT_MS,
    }
}

/// `c` is the command made of entry `e`, at position `idx` of pack `pack`.
pub open spec fn is_legacy_command(c: JCommand, e: LegacyEntry, idx: nat, pack: Seq<char>) -> bool {
    &&& c.id@ == legacy_id(pack, idx)
    &&& c.cmd_type@ == e.command.action@
    &&& c.exe_path@ == e.command.exe_path@
    &&& strs(c.exe_args@) == strs(e.command.exe_args@)
    &&& c.cli_cmd@ == e.command.cli_cmd@
    &&& strs(c.cli_args@) == strs(e.command.cli_args@)
    &&& c.script@ == e.command.script@
    &&& c.sandbox@ == legacy_sandbox(e.command)
    &&& c.timeout == legacy_timeout(e.command)
    &&& c.phrases@.len() == 1
    &&& c.phrases@[0].lang@ == "ru"@
    &&& strs(c.phrases@[0].phrases@) == entry_phrases(e)
    &&& strs(c.sounds@) == strs(e.voice.sounds@)
}

/// Positions, among the first `n` entries, of those that contribute a command.
pub open spec fn kept(es: Seq<LegacyEntry>, n: nat) -> Seq<nat>
    decreases n,
{
    if n == 0 {
        Seq::empty()
    } else {
        let r = kept(es, (n - 1) as nat);
        if entry_phrases(es[n - 1]).len() > 0 {
            r.push((n - 1) as nat)
        } else {
            r
        }
    }
}

/// The commands of a legacy pack file: `out[k]` is made of the `k`-th entry with phrases.
pub open spec fn legacy_commands_ok(out: Seq<JCommand>, es: Seq<LegacyEntry>, pack: Seq<char>) -> bool {
    let ks = kept(es, es.len());
    &&& out.len() == ks.len()
    &&& forall|k: int|
        0 <= k < out.len() ==> is_legacy_command(#[trigger] out[k], es[ks[k] as int], ks[k], pack)
}

/// Error text for a pack that yields no command.
pub open spec fn no_commands_message(pack: Seq<char>) -> Seq<char> {
    "Legacy YAML pack '"@ + pack + "' produced no commands (empty or missing phrases)"@
}

fn clean_phrase_list(src: &Vec<String>) -> (out: Vec<String>)
    ensures
        strs(out@) == clean_phrases(strs(src@)),
{
    let mut out: Vec<String> = Vec::new();
    let mut i: usize = 0;
    while i < src.len()
        invariant
            i <= src@.len(),
            strs(out@) == clean_phrases(strs(src@).take(i as int)),
        decreases src@.len() - i,
    {
        let t = trim_str(src[i].as_str());
        let ghost prev = strs(src@).take(i as int);
        assert(strs(src@).take(i + 1).drop_last() =~= prev);
        assert(strs(src@).take(i + 1).last() == src@[i as int]@);
        if !t.as_str().is_empty() {
            let ghost before = out@;
            out.push(t);
            assert(strs(out@) =~= strs(before).push(t@));
        }
        i += 1;
    }
    assert(strs(src@).take(src@.len() as int) =~= strs(src@));
    out
}

fn build_legacy_command(e: &LegacyEntry, idx: usize, pack_id: &str, phrases: Vec<String>) -> (c:
    JCommand)
    requires
        strs(phrases@) == entry_phrases(*e),
    ensures
        is_legacy_command(c, *e, idx as nat, pack_id@),
{
    let mut id = sanitize_id(pack_id);
    push_str(&mut id, "_cmd_");
    push_decimal(&mut id, idx);
    let timeout = match e.command.timeout {
        Some(t) => t,
        None => DEFAULT_LEGACY_TIMEOUT_MS,
    };
    let sandbox = if e.command.script.as_str().is_empty() {
        String::new()
    } else if e.command.sandbox.as_str().is_empty() {
        "standard".to_owned()
    } else {
        e.command.sandbox.clone()
    };
    JCommand::from_legacy_ru(
        id,
        e.command.action.clone(),
        e.command.exe_path.clone(),
        clone_strings(&e.command.exe_args),
        e.command.cli_cmd.clone(),
        clone_strings(&e.command.cli_args),
        e.command.script.clone(),
        sandbox,
        timeout,
        phrases,
        clone_strings(&e.voice.sounds),
    )
}

/// The commands of a legacy pack file. `pack_id` is the pack's folder name. Entries
/// without phrases are skipped; a pack that yields no command is an error.
pub fn commands_from_legacy(file: &LegacyFile, pack_id: &str) -> (r: Result<Vec<JCommand>, String>)
    ensures
        r is Ok <==> kept(file.list@, file.list@.len()).len() > 0,
        r matches Ok(out) ==> legacy_commands_ok(out@, file.list@, pack_id@),
        r matches Err(msg) ==> msg@ == no_commands_message(pack_id@),
{
    let es = &file.list;
    let mut out: Vec<JCommand> = Vec::new();
    let mut idx: usize = 0;
    while idx < es.len()
        invariant
            idx <= es@.len(),
            *es == file.list,
            out@.len() == kept(es@, idx as nat).len(),
            forall|k: int|
                0 <= k < out@.len() ==> is_legacy_command(
                    #[trigger] out@[k],
                    es@[kept(es@, idx as nat)[k] as int],
                    kept(es@, idx as nat)[k],
                    pack_id@,
                ),
            forall|k: int|
                0 <= k < kept(es@, idx as nat).len() ==> #[trigger] kept(es@, idx as nat)[k] < idx,
        decreases es@.len() - idx,
    {
        let e = &es[idx];
        let src = if e.phrases.len() > 0 {
            &e.phrases
        } else {
            &e.voice.phrases
        };
        let phrases = clean_phrase_list(src);
        let ghost prev = kept(es@, idx as nat);
        if phrases.len() > 0 {
            let c = build_legacy_command(e, idx, pack_id, phrases);
            out.push(c);
            assert(kept(es@, (idx + 1) as nat) == prev.push(idx as nat));
        } else {
            assert(kept(es@, (idx + 1) as nat) == prev);
        }
        idx += 1;
    }
    if out.len() == 0 {
        let mut msg = "Legacy YAML pack '".to_owned();
        push_str(&mut msg, pack_id);
        push_str(&mut msg, "' produced no commands (empty or missing phrases)");
        return Err(msg);
    }
    Ok(out)
}

/// `sanitize_id` keeps the length, leaves only ASCII letters, digits and `_`, and changes
/// nothing in what it already produced.
pub proof fn law_sanitize(s: Seq<char>)
    ensures
        sanitized(s).len() == s.len(),
        forall|i: int|
            0 <= i < s.len() ==> is_ascii_alnum(#[trigger] sanitized(s)[i]) || sanitized(s)[i]
                == '_',
        sanitized(sanitized(s)) == sanitized(s),
{
    assert(sanitized(sanitized(s)) =~= sanitized(s));
}

proof fn lemma_kept_increasing(es: Seq<LegacyEntry>, n: nat)
    requires
        n <= es.len(),
    ensures
        forall|k: int| 0 <= k < kept(es, n).len() ==> #[trigger] kept(es, n)[k] < n,
        forall|a: int, b: int|
            0 <= a < b < kept(es, n).len() ==> #[trigger] kept(es, n)[a] < #[trigger] kept(es, n)[b],
    decreases n,
{
    if n > 0 {
        lemma_kept_increasing(es, (n - 1) as nat);
        let r = kept(es, (n - 1) as nat);
        let ks = kept(es, n);
        if entry_phrases(es[n - 1]).len() > 0 {
            assert(ks == r.push((n - 1) as nat));
            assert forall|k: int| 0 <= k < ks.len() implies #[trigger] ks[k] < n by {
                if k < r.len() {
                    assert(ks[k] == r[k]);
                }
            }
            assert forall|a: int, b: int| 0 <= a < b < ks.len() implies #[trigger] ks[a]
                < #[trigger] ks[b] by {
                assert(ks[a] == r[a]);
                if b < r.len() {
                    assert(ks[b] == r[b]);
                }
            }
        } else {
            assert(ks == r);
        }
    }
}

proof fn lemma_legacy_id_injective(pack: Seq<char>, a: nat, b: nat)
    requires
        legacy_id(pack, a) == legacy_id(pack, b),
    ensures
        a == b,
{
    let pre = sanitized(pack) + "_cmd_"@;
    assert(legacy_id(pack, a).skip(pre.len() as int) =~= decimal(a));
    assert(legacy_id(pack, b).skip(pre.len() as int) =~= decimal(b));
    lemma_decimal_injective(a, b);
}

/// The commands of one legacy pack have pairwise different ids.
pub proof fn law_legacy_ids_distinct(out: Seq<JCommand>, es: Seq<LegacyEntry>, pack: Seq<char>)
    requires
        legacy_commands_ok(out, es, pack),
    ensures
        forall|a: int, b: int|
            0 <= a < b < out.len() ==> #[trigger] out[a].id@ != #[trigger] out[b].id@,
{
    lemma_kept_increasing(es, es.len());
    let ks = kept(es, es.len());
    assert forall|a: int, b: int| 0 <= a < b < out.len() implies #[trigger] out[a].id@
        != #[trigger] out[b].id@ by {
        assert(is_legacy_command(out[a], es[ks[a] as int], ks[a], pack));
        assert(is_legacy_command(out[b], es[ks[b] as int], ks[b], pack));
        assert(ks[a] < ks[b]);
        if out[a].id@ == out[b].id@ {
            lemma_legacy_id_injective(pack, ks[a], ks[b]);
        }
    }
}

proof fn lemma_clean_phrases(src: Seq<Seq<char>>)
    ensures
        forall|i: int|
            0 <= i < clean_phrases(src).len() ==> (#[trigger] clean_phrases(src)[i]).len() > 0
                && !is_ws(clean_phrases(src)[i][0]) && !is_ws(clean_phrases(src)[i].last()),
    decreases src.len(),
{
    if src.len() > 0 {
        lemma_clean_phrases(src.drop_last());
        lemma_trim_ends(src.last());
        let r = clean_phrases(src.drop_last());
        let c = clean_phrases(src);
        if trim(src.last()).len() > 0 {
            assert(c == r.push(trim(src.last())));
            assert forall|i: int| 0 <= i < c.len() implies (#[trigger] c[i]).len() > 0 && !is_ws(
                c[i][0],
            ) && !is_ws(c[i].last()) by {
                if i < r.len() {
                    assert(c[i] == r[i]);
                }
            }
        } else {
            assert(c == r);
        }
    }
}

/// Every phrase of a legacy command is non-empty and neither starts nor ends with
/// whitespace.
pub proof fn law_legacy_phrases_trimmed(out: Seq<JCommand>, es: Seq<LegacyEntry>, pack: Seq<char>)
    requires
        legacy_commands_ok(out, es, pack),
    ensures
        forall|k: int, i: int|
            0 <= k < out.len() && 0 <= i < out[k].phrases@[0].phrases@.len() ==> {
                let p = (#[trigger] out[k].phrases@[0].phrases@[i])@;
                p.len() > 0 && !is_ws(p[0]) && !is_ws(p.last())
            },
{
    let ks = kept(es, es.len());
    assert forall|k: int, i: int|
        0 <= k < out.len() && 0 <= i < out[k].phrases@[0].phrases@.len() implies {
        let p = (#[trigger] out[k].phrases@[0].phrases@[i])@;
        p.len() > 0 && !is_ws(p[0]) && !is_ws(p.last())
    } by {
        let e = es[ks[k] as int];
        assert(is_legacy_command(out[k], e, ks[k], pack));
        let src = if e.phrases@.len() > 0 {
            strs(e.phrases@)
        } else {
            strs(e.voice.phrases@)
        };
        lemma_clean_phrases(src);
        assert(strs(out[k].phrases@[0].phrases@)[i] == out[k].phrases@[0].phrases@[i]@);
    }
}

/// The phrases of a legacy entry are its source phrases, each trimmed, with the blank ones
/// left out and every other one kept, in order; phrases of two lists joined are those of the
/// first list followed by those of the second.
pub proof fn law_clean_phrases(src: Seq<Seq<char>>, more: Seq<Seq<char>>)
    ensures
        clean_phrases(src) == src.map_values(|p: Seq<char>| trim(p)).filter(
            |t: Seq<char>| t.len() > 0,
        ),
        clean_phrases(src + more) == clean_phrases(src) + clean_phrases(more),
{
    lemma_clean_phrases_filter(src);
    lemma_clean_phrases_filter(more);
    lemma_clean_phrases_filter(src + more);
    let f = |p: Seq<char>| trim(p);
    let keep = |t: Seq<char>| t.len() > 0;
    assert((src + more).map_values(f) =~= src.map_values(f) + more.map_values(f));
    Seq::filter_distributes_over_add(src.map_values(f), more.map_values(f), keep);
}

proof fn lemma_clean_phrases_filter(src: Seq<Seq<char>>)
    ensures
        clean_phrases(src) == src.map_values(|p: Seq<char>| trim(p)).filter(
            |t: Seq<char>| t.len() > 0,
        ),
    decreases src.len(),
{
    let f = |p: Seq<char>| trim(p);
    let keep = |t: Seq<char>| t.len() > 0;
    if src.len() == 0 {
        reveal(Seq::filter);
        assert(src.map_values(f) =~= Seq::<Seq<char>>::empty());
    } else {
        lemma_clean_phrases_filter(src.drop_last());
        assert(src.map_values(f) =~= src.drop_last().map_values(f).push(trim(src.last())));
        src.drop_last().map_values(f).lemma_filter_push(trim(src.last()), keep);
    }
}

/// The phrases of a legacy entry come from the list written next to `voice` when it has any
/// phrase, blank or not, and from the list under `voice` otherwise; each is trimmed and the
/// blank ones are left out.
pub proof fn law_entry_phrases(e: LegacyEntry)
    ensures
        e.phrases@.len() > 0 ==> entry_phrases(e) == strs(e.phrases@).map_values(
            |p: Seq<char>| trim(p),
        ).filter(|t: Seq<char>| t.len() > 0),
        e.phrases@.len() == 0 ==> entry_phrases(e) == strs(e.voice.phrases@).map_values(
            |p: Seq<char>| trim(p),
        ).filter(|t: Seq<char>| t.len() > 0),
{
    lemma_clean_phrases_filter(strs(e.phrases@));
    lemma_clean_phrases_filter(strs(e.voice.phrases@));
}

/// Among the entries of a legacy pack file, exactly those with at least one non-blank phrase
/// give a command, each once and in the order of the file, whatever the other entries hold.
pub proof fn law_legacy_entries_kept(es: Seq<LegacyEntry>)
    ensures
        forall|i: int|
            0 <= i < es.len() ==> (kept(es, es.len()).contains(i as nat) <==> entry_phrases(
                #[trigger] es[i],
            ).len() > 0),
        forall|k: int| 0 <= k < kept(es, es.len()).len() ==> #[trigger] kept(es, es.len())[k] < es.len(),
        forall|a: int, b: int|
            0 <= a < b < kept(es, es.len()).len() ==> #[trigger] kept(es, es.len())[a]
                < #[trigger] kept(es, es.len())[b],
{
    lemma_kept_increasing(es, es.len());
    lemma_kept_members(es, es.len());
    assert forall|i: int| 0 <= i < es.len() implies (kept(es, es.len()).contains(i as nat)
        <==> entry_phrases(#[trigger] es[i]).len() > 0) by {
        assert(es[(i as nat) as int] == es[i]);
    }
}

proof fn lemma_kept_members(es: Seq<LegacyEntry>, n: nat)
    requires
        n <= es.len(),
    ensures
        forall|i: nat|
            i < n ==> (kept(es, n).contains(i) <==> entry_phrases(#[trigger] es[i as int]).len()
                > 0),
    decreases n,
{
    if n > 0 {
        let m = (n - 1) as nat;
        lemma_kept_members(es, m);
        lemma_kept_increasing(es, m);
        let r = kept(es, m);
        let y = kept(es, n);
        if entry_phrases(es[m as int]).len() > 0 {
            assert(y == r.push(m));
            assert forall|i: nat| i < n implies (y.contains(i) <==> entry_phrases(
                #[trigger] es[i as int],
            ).len() > 0) by {
                if i < m {
                    if r.contains(i) {
                        let k = choose|k: int| 0 <= k < r.len() && r[k] == i;
                        assert(y[k] == r[k]);
                    }
                    if y.contains(i) {
                        let k = choose|k: int| 0 <= k < y.len() && y[k] == i;
                        if k < r.len() {
                            assert(y[k] == r[k]);
                        }
                    }
                } else {
                    assert(y[r.len() as int] == m);
                }
            }
        } else {
            assert(y == r);
            assert forall|i: nat| i < n implies (y.contains(i) <==> entry_phrases(
                #[trigger] es[i as int],
            ).len() > 0) by {
                if i == m && y.contains(i) {
                    let k = choose|k: int| 0 <= k < y.len() && y[k] == i;
                    assert(y[k] < m);
                }
            }
        }
    }
}

/// A legacy command takes its type, target, arguments, script and sounds from its entry; its
/// sandbox is empty without a script and `standard` when a script has none; its timeout is
/// ten seconds when none is given; its phrases form one Russian phrase set.
pub proof fn law_legacy_defaults(c: JCommand, e: LegacyEntry, idx: nat, pack: Seq<char>)
    requires
        is_legacy_command(c, e, idx, pack),
    ensures
        c.cmd_type@ == e.command.action@,
        c.script@ == e.command.script@,
        e.command.script@.len() == 0 ==> c.sandbox@.len() == 0,
        e.command.script@.len() > 0 && e.command.sandbox@.len() == 0 ==> c.sandbox@ == "standard"@,
        e.command.script@.len() > 0 && e.command.sandbox@.len() > 0 ==> c.sandbox@ == e.command.sandbox@,
        e.command.timeout is None ==> c.timeout == 10_000,
        e.command.timeout matches Some(t) ==> c.timeout == t,
        c.phrases@.len() == 1 && c.phrases@[0].lang@ == "ru"@,
        c.id@ == sanitized(pack) + "_cmd_"@ + decimal(idx),
{
}

} // verus!
