//! What running a command amounts to: the decisions taken on its type, where an
//! AutoHotkey target is looked for, how its command line is built, and which shells run a
//! CLI command on Windows. Spawning processes and looking at the disk happen elsewhere.
use vstd::prelude::*;
use crate::command::strs;
use crate::text::{
    chars_of, lemma_strip_back_stop, lemma_strip_front_stop, push_char, push_str, str_eq,
    string_from_range, strip, trim, trim_bounds,
};

verus! {

/// What a command of a given type does.
pub enum CommandStep {
    /// The command is done, with this result: whether to go on chaining, or an error.
    Finished(Result<bool, String>),
    /// Run the command's AutoHotkey target.
    RunAhk,
    /// Run the command's CLI command through a shell.
    RunCli,
    /// Run the command's Lua script.
    RunLua,
    /// End the assistant.
    Terminate,
}

/// Error text for a command type that is not known.
pub open spec fn unknown_type_message(cmd_type: Seq<char>) -> Seq<char> {
    "Command type unknown: "@ + cmd_type
}

/// The command type is one of those that are known.
pub open spec fn known_type(cmd_type: Seq<char>) -> bool {
    cmd_type == "voice"@ || cmd_type == "lua"@ || cmd_type == "ahk"@ || cmd_type == "cli"@
        || cmd_type == "terminate"@ || cmd_type == "stop_chaining"@
}

/// The step for a command of type `cmd_type`: `voice` is done and goes on chaining,
/// `stop_chaining` is done and stops it, `lua`, `ahk`, `cli` and `terminate` have work to do, and
/// any other type is an error.
pub fn command_step(cmd_type: &str) -> (r: CommandStep)
    ensures
        cmd_type@ == "voice"@ ==> r == CommandStep::Finished(Ok(true)),
        cmd_type@ == "lua"@ ==> r == CommandStep::RunLua,
        cmd_type@ == "ahk"@ ==> r == CommandStep::RunAhk,
        cmd_type@ == "cli"@ ==> r == CommandStep::RunCli,
        cmd_type@ == "terminate"@ ==> r == CommandStep::Terminate,
        cmd_type@ == "stop_chaining"@ ==> r == CommandStep::Finished(Ok(false)),
        !known_type(cmd_type@) ==> (r matches CommandStep::Finished(Err(msg)) && msg@
            == unknown_type_message(cmd_type@)),
{
    proof {
        reveal_strlit("voice");
        reveal_strlit("lua");
        reveal_strlit("ahk");
        reveal_strlit("cli");
        reveal_strlit("terminate");
        reveal_strlit("stop_chaining");
        assert("voice"@.len() == 5 && "ahk"@.len() == 3 && "cli"@.len() == 3);
        assert("terminate"@.len() == 9 && "stop_chaining"@.len() == 13);
        assert("ahk"@[0] != "cli"@[0] && "lua"@[0] != "ahk"@[0] && "lua"@[0] != "cli"@[0]);
    }
    if str_eq(cmd_type, "voice") {
        CommandStep::Finished(Ok(true))
    } else if str_eq(cmd_type, "lua") {
        CommandStep::RunLua
    } else if str_eq(cmd_type, "ahk") {
        CommandStep::RunAhk
    } else if str_eq(cmd_type, "cli") {
        CommandStep::RunCli
    } else if str_eq(cmd_type, "terminate") {
        CommandStep::Terminate
    } else if str_eq(cmd_type, "stop_chaining") {
        CommandStep::Finished(Ok(false))
    } else {
        let mut msg = "Command type unknown: ".to_owned();
        push_str(&mut msg, cmd_type);
        CommandStep::Finished(Err(msg))
    }
}

/// The script file of a Lua command: the configured one, or `script.lua` when none is set.
pub fn lua_script_name(script: &str) -> (r: &str)
    ensures
        r@ == if script@.len() == 0 {
            "script.lua"@
        } else {
            script@
        },
{
    if script.is_empty() {
        "script.lua"
    } else {
        script
    }
}

/// Error text for a Lua script that is not on disk.
pub open spec fn lua_script_not_found(path: Seq<char>) -> Seq<char> {
    "Lua script not found: "@ + path
}

/// The error for a Lua script at `path` that does not exist.
pub fn lua_script_not_found_message(path: &str) -> (m: String)
    ensures
        m@ == lua_script_not_found(path@),
{
    let mut m = "Lua script not found: ".to_owned();
    push_str(&mut m, path);
    m
}

/// ASCII lowercase of one character.
pub open spec fn ascii_lower(c: char) -> char {
    if 'A' <= c && c <= 'Z' {
        ((c as u32) + 32) as char
    } else {
        c
    }
}

fn ascii_lower_exec(c: char) -> (r: char)
    ensures
        r == ascii_lower(c),
{
    if 'A' <= c && c <= 'Z' {
        (((c as u32) + 32) as u8) as char
    } else {
        c
    }
}

/// `a` equals `b` ignoring ASCII case.
pub open spec fn eq_ignore_ascii_case(a: Seq<char>, b: Seq<char>) -> bool {
    a.len() == b.len() && forall|i: int| 0 <= i < a.len() ==> ascii_lower(#[trigger] a[i])
        == ascii_lower(b[i])
}

fn eq_ignore_case_range(v: &Vec<char>, lo: usize, t: &str) -> (r: bool)
    requires
        lo <= v@.len(),
    ensures
        r == eq_ignore_ascii_case(v@.skip(lo as int), t@),
{
    let tv = chars_of(t);
    if v.len() - lo != tv.len() {
        return false;
    }
    let mut i: usize = 0;
    while i < tv.len()
        invariant
            lo + tv@.len() == v@.len(),
            lo + tv.len() == v.len(),
            tv@ == t@,
            i <= tv@.len(),
            forall|k: int| 0 <= k < i ==> ascii_lower(#[trigger] v@.skip(lo as int)[k])
                == ascii_lower(tv@[k]),
        decreases tv@.len() - i,
    {
        assert(v@.skip(lo as int)[i as int] == v@[lo + i]);
        if ascii_lower_exec(v[lo + i]) != ascii_lower_exec(tv[i]) {
            return false;
        }
        i += 1;
    }
    true
}

/// The path names an `.exe`, in any ASCII case.
pub open spec fn ends_with_exe(s: Seq<char>) -> bool {
    s.len() >= 4 && eq_ignore_ascii_case(s.skip(s.len() - 4), ".exe"@)
}

/// The `.ahk` script that stands for an `.exe` path.
pub open spec fn script_for_exe(s: Seq<char>) -> Seq<char> {
    s.take(s.len() - 4) + ".ahk"@
}

/// A place to look for an AutoHotkey target.
pub struct AhkCandidate {
    /// The path as written.
    pub path: String,
    /// Whether it is taken relative to the command's pack directory.
    pub local: bool,
}

/// Where an AutoHotkey target is looked for, in order: the configured path as it is, then
/// in the pack directory; for an `.exe`, then also the `.ahk` script of the same name, as it
/// is and then in the pack directory.
pub open spec fn ahk_places(configured: Seq<char>) -> Seq<(Seq<char>, bool)> {
    let direct = seq![(configured, false), (configured, true)];
    if ends_with_exe(configured) {
        let script = script_for_exe(configured);
        direct + seq![(script, false), (script, true)]
    } else {
        direct
    }
}

pub open spec fn places_view(v: Seq<AhkCandidate>) -> Seq<(Seq<char>, bool)> {
    v.map_values(|c: AhkCandidate| (c.path@, c.local))
}

/// The places to look for the AutoHotkey target `configured`, in order.
pub fn ahk_candidates(configured: &str) -> (r: Vec<AhkCandidate>)
    ensures
        places_view(r@) == ahk_places(configured@),
{
    let mut r: Vec<AhkCandidate> = Vec::new();
    r.push(AhkCandidate { path: configured.to_owned(), local: false });
    r.push(AhkCandidate { path: configured.to_owned(), local: true });
    let v = chars_of(configured);
    if v.len() >= 4 && eq_ignore_case_range(&v, v.len() - 4, ".exe") {
        let mut script = string_from_range(&v, 0, v.len() - 4);
        push_str(&mut script, ".ahk");
        assert(v@.subrange(0, v@.len() - 4) =~= v@.take(v@.len() - 4));
        r.push(AhkCandidate { path: script.clone(), local: false });
        r.push(AhkCandidate { path: script, local: true });
        assert(places_view(r@) =~= ahk_places(configured@));
    } else {
        assert(places_view(r@) =~= ahk_places(configured@));
    }
    r
}

/// The path names an `.exe`: it ends in a dot and the letters `e`, `x`, `e`, each in either
/// case.
pub open spec fn names_exe(c: Seq<char>) -> bool {
    let n = c.len();
    &&& n >= 4
    &&& c[n - 4] == '.'
    &&& (c[n - 3] == 'e' || c[n - 3] == 'E')
    &&& (c[n - 2] == 'x' || c[n - 2] == 'X')
    &&& (c[n - 1] == 'e' || c[n - 1] == 'E')
}

/// Every configured AutoHotkey target is looked for first as it is and then in the pack
/// directory, whatever it names; a path that names an `.exe` is then also looked for as the
/// `.ahk` script of the same name, as it is and in the pack directory; nowhere else.
pub proof fn law_ahk_places(c: Seq<char>)
    ensures
        ahk_places(c).len() == if names_exe(c) { 4int } else { 2int },
        ahk_places(c)[0] == (c, false),
        ahk_places(c)[1] == (c, true),
        names_exe(c) ==> ahk_places(c)[2] == (c.take(c.len() - 4) + seq!['.', 'a', 'h', 'k'], false),
        names_exe(c) ==> ahk_places(c)[3] == (c.take(c.len() - 4) + seq!['.', 'a', 'h', 'k'], true),
{
    reveal_strlit(".exe");
    reveal_strlit(".ahk");
    assert(".ahk"@ =~= seq!['.', 'a', 'h', 'k']);
    let n = c.len();
    if n >= 4 {
        let t = c.skip(n - 4);
        assert(t[0] == c[n - 4] && t[1] == c[n - 3] && t[2] == c[n - 2] && t[3] == c[n - 1]);
        assert(eq_ignore_ascii_case(t, ".exe"@) <==> (ascii_lower(t[0]) == '.' && ascii_lower(t[1])
            == 'e' && ascii_lower(t[2]) == 'x' && ascii_lower(t[3]) == 'e'));
        assert(ascii_lower(t[0]) == '.' <==> t[0] == '.');
        assert(ascii_lower(t[1]) == 'e' <==> (t[1] == 'e' || t[1] == 'E'));
        assert(ascii_lower(t[2]) == 'x' <==> (t[2] == 'x' || t[2] == 'X'));
        assert(ascii_lower(t[3]) == 'e' <==> (t[3] == 'e' || t[3] == 'E'));
    }
}

/// Error text when no AutoHotkey target was found.
pub open spec fn ahk_not_found(configured: Seq<char>) -> Seq<char> {
    "AHK target not found: '"@ + configured + "' (checked absolute/local and .ahk fallback)"@
}

/// The error for an AutoHotkey target that was found nowhere.
pub fn ahk_not_found_message(configured: &str) -> (m: String)
    ensures
        m@ == ahk_not_found(configured@),
{
    let mut m = "AHK target not found: '".to_owned();
    push_str(&mut m, configured);
    push_str(&mut m, "' (checked absolute/local and .ahk fallback)");
    m
}

/// Whether a file extension is that of an AutoHotkey script (`ahk`, in any ASCII case).
pub fn is_ahk_extension(ext: Option<&str>) -> (r: bool)
    ensures
        r == (ext matches Some(e) && eq_ignore_ascii_case(e@, "ahk"@)),
{
    match ext {
        Some(e) => {
            let v = chars_of(e);
            let r = eq_ignore_case_range(&v, 0, "ahk");
            assert(v@.skip(0) =~= v@);
            r
        },
        None => false,
    }
}

/// Each argument preceded by a space.
pub open spec fn spaced_args(args: Seq<Seq<char>>) -> Seq<char>
    decreases args.len(),
{
    if args.len() == 0 {
        Seq::empty()
    } else {
        spaced_args(args.drop_last()) + " "@ + args.last()
    }
}

/// The command line that runs an AutoHotkey script through the shell: the quoted path, then
/// each argument after a space.
pub fn ahk_cmdline(path: &str, args: &Vec<String>) -> (s: String)
    ensures
        s@ == "\""@ + path@ + "\""@ + spaced_args(strs(args@)),
{
    let mut s = "\"".to_owned();
    push_str(&mut s, path);
    push_char(&mut s, '"');
    let ghost head = s@;
    let ghost av = strs(args@);
    assert(head =~= "\""@ + path@ + "\""@) by {
        reveal_strlit("\"");
    }
    let mut i: usize = 0;
    while i < args.len()
        invariant
            i <= args@.len(),
            av == strs(args@),
            s@ == head + spaced_args(av.take(i as int)),
        decreases args@.len() - i,
    {
        push_char(&mut s, ' ');
        push_str(&mut s, args[i].as_str());
        proof {
            reveal_strlit(" ");
            assert(av.take(i + 1).drop_last() =~= av.take(i as int));
        }
        assert(s@ =~= head + spaced_args(av.take(i + 1)));
        i += 1;
    }
    assert(av.take(args@.len() as int) =~= av);
    s
}

pub open spec fn quote_pred() -> spec_fn(char) -> bool {
    |c: char| c == '"'
}

/// A value read from the environment, without surrounding whitespace and then quotes.
pub open spec fn env_value(s: Seq<char>) -> Seq<char> {
    strip(trim(s), quote_pred())
}

fn env_value_exec(s: &str) -> (r: String)
    ensures
        r@ == env_value(s@),
{
    let v = chars_of(s);
    let (a, b) = trim_bounds(&v);
    let ghost t = v@.subrange(a as int, b as int);
    let ghost p = quote_pred();
    let mut lo = a;
    while lo < b && v[lo] == '"'
        invariant
            a <= lo <= b <= v@.len(),
            p == quote_pred(),
            t == v@.subrange(a as int, b as int),
            forall|i: int| 0 <= i < lo - a ==> p(#[trigger] t[i]),
        decreases b - lo,
    {
        assert(t[lo - a] == v@[lo as int]);
        lo += 1;
    }
    proof {
        if lo < b {
            assert(t[lo - a] == v@[lo as int]);
        }
        lemma_strip_front_stop(t, p, lo - a);
    }
    let ghost front = t.skip(lo - a);
    let mut hi = b;
    while hi > lo && v[hi - 1] == '"'
        invariant
            a <= lo <= hi <= b <= v@.len(),
            p == quote_pred(),
            front == t.skip(lo - a),
            t == v@.subrange(a as int, b as int),
            forall|i: int| hi - lo <= i < front.len() ==> p(#[trigger] front[i]),
        decreases hi,
    {
        assert(front[hi - 1 - lo] == v@[hi - 1]);
        hi -= 1;
    }
    proof {
        let k = hi - lo;
        if k > 0 {
            assert(front[k - 1] == v@[hi - 1]);
        }
        lemma_strip_back_stop(front, p, k);
        assert(front.take(k) =~= v@.subrange(lo as int, hi as int));
    }
    string_from_range(&v, lo, hi)
}

/// The shells tried, in order, to run a CLI command on Windows, given the environment
/// variables `ComSpec` and `SystemRoot` (each `None` when unset): `ComSpec` when it is not
/// empty, then `cmd`, then `System32` and `Sysnative` `cmd.exe` under `SystemRoot` (under
/// `C:\Windows` when `SystemRoot` is unset; none when it is empty).
pub open spec fn shells(comspec: Option<Seq<char>>, system_root: Option<Seq<char>>) -> Seq<
    Seq<char>,
> {
    let first: Seq<Seq<char>> = match comspec {
        Some(c) => if env_value(c).len() > 0 {
            seq![env_value(c)]
        } else {
            Seq::empty()
        },
        None => Seq::empty(),
    };
    let last: Seq<Seq<char>> = match system_root {
        Some(r) => if env_value(r).len() > 0 {
            seq![env_value(r) + "\\System32\\cmd.exe"@, env_value(r) + "\\Sysnative\\cmd.exe"@]
        } else {
            Seq::empty()
        },
        None => seq!["C:\\Windows\\System32\\cmd.exe"@, "C:\\Windows\\Sysnative\\cmd.exe"@],
    };
    first + seq!["cmd"@] + last
}

/// The shells to try, in order, for a CLI command on Windows.
pub fn windows_shells(comspec: Option<&str>, system_root: Option<&str>) -> (r: Vec<String>)
    ensures
        strs(r@) == shells(
            match comspec {
                Some(c) => Some(c@),
                None => None,
            },
            match system_root {
                Some(s) => Some(s@),
                None => None,
            },
        ),
{
    let mut r: Vec<String> = Vec::new();
    let ghost cs = match comspec {
        Some(c) => Some(c@),
        None => None::<Seq<char>>,
    };
    let ghost rs = match system_root {
        Some(s) => Some(s@),
        None => None::<Seq<char>>,
    };
    if let Some(c) = comspec {
        let t = env_value_exec(c);
        if !t.as_str().is_empty() {
            r.push(t);
        }
    }
    r.push("cmd".to_owned());
    match system_root {
        Some(root) => {
            let t = env_value_exec(root);
            if !t.as_str().is_empty() {
                let mut a = t.clone();
                push_str(&mut a, "\\System32\\cmd.exe");
                let mut b = t;
                push_str(&mut b, "\\Sysnative\\cmd.exe");
                r.push(a);
                r.push(b);
            }
        },
        None => {
            r.push("C:\\Windows\\System32\\cmd.exe".to_owned());
            r.push("C:\\Windows\\Sysnative\\cmd.exe".to_owned());
        },
    }
    assert(strs(r@) =~= shells(cs, rs));
    r
}

/// The arguments of an AutoHotkey command line each come after one space, in order: the
/// arguments of two lists joined give the two parts joined, and one argument gives a space
/// and that argument.
pub proof fn law_spaced_args(a: Seq<Seq<char>>, b: Seq<Seq<char>>, x: Seq<char>)
    ensures
        spaced_args(a + b) == spaced_args(a) + spaced_args(b),
        spaced_args(seq![x]) == seq![' '] + x,
    decreases b.len(),
{
    reveal_strlit(" ");
    assert(seq![x].drop_last() =~= Seq::<Seq<char>>::empty());
    assert(Seq::<char>::empty() + " "@ + x =~= seq![' '] + x);
    assert(spaced_args(Seq::<Seq<char>>::empty()) =~= Seq::<char>::empty());
    assert(seq![x].last() == x);
    assert(spaced_args(seq![x]) =~= seq![' '] + x);
    if b.len() == 0 {
        assert(a + b =~= a);
        assert(spaced_args(a) + spaced_args(b) =~= spaced_args(a));
    } else {
        law_spaced_args(a, b.drop_last(), x);
        assert((a + b).drop_last() =~= a + b.drop_last());
        assert((a + b).last() == b.last());
        assert(spaced_args(a + b) =~= spaced_args(a) + spaced_args(b));
    }
}

/// On Windows a CLI command is tried first with the shell that `ComSpec` names, when it names
/// one, then always with `cmd`, then with `cmd.exe` from `System32` and then from `Sysnative`
/// under `SystemRoot` (under `C:\Windows` when it is unset).
pub proof fn law_shells(comspec: Option<Seq<char>>, system_root: Option<Seq<char>>)
    ensures
        ({
            let sh = shells(comspec, system_root);
            let k: int = if comspec is Some && env_value(comspec->0).len() > 0 {
                1
            } else {
                0
            };
            &&& k == 1 ==> sh[0] == env_value(comspec->0)
            &&& sh[k] == "cmd"@
            &&& system_root is None ==> sh.len() == k + 3 && sh[k + 1]
                == "C:\\Windows\\System32\\cmd.exe"@ && sh[k + 2] == "C:\\Windows\\Sysnative\\cmd.exe"@
            &&& (system_root is Some && env_value(system_root->0).len() > 0) ==> sh.len() == k + 3
                && sh[k + 1] == env_value(system_root->0) + "\\System32\\cmd.exe"@ && sh[k + 2]
                == env_value(system_root->0) + "\\Sysnative\\cmd.exe"@
            &&& (system_root is Some && env_value(system_root->0).len() == 0) ==> sh.len() == k + 1
        }),
{
}

} // verus!
