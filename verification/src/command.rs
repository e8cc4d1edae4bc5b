//! Commands, command packs, and looking them up.
use vstd::prelude::*;
use crate::text::str_eq;

verus! {

/// The phrases of a command in one language.
pub struct PhraseSet {
    pub lang: String,
    pub phrases: Vec<String>,
}

/// A voice command.
pub struct JCommand {
    pub id: String,
    pub cmd_type: String,
    pub exe_path: String,
    pub exe_args: Vec<String>,
    pub cli_cmd: String,
    pub cli_args: Vec<String>,
    pub script: String,
    pub sandbox: String,
    /// Script timeout, in milliseconds.
    pub timeout: u64,
    pub phrases: Vec<PhraseSet>,
    pub sounds: Vec<String>,
}

/// A command pack: the directory it was loaded from and its commands.
pub struct JCommandsList {
    pub path: String,
    pub commands: Vec<JCommand>,
}

/// The characters of each string.
pub open spec fn strs(v: Seq<String>) -> Seq<Seq<char>> {
    v.map_values(|s: String| s@)
}

/// The phrases of the first phrase set for `lang` (none if there is no such set).
pub open spec fn phrases_in(sets: Seq<PhraseSet>, lang: Seq<char>) -> Seq<Seq<char>>
    decreases sets.len(),
{
    if sets.len() == 0 {
        Seq::empty()
    } else if sets[0].lang@ == lang {
        strs(sets[0].phrases@)
    } else {
        phrases_in(sets.drop_first(), lang)
    }
}

/// The phrases of `cmd` in `lang`.
pub open spec fn phrases_for(cmd: JCommand, lang: Seq<char>) -> Seq<Seq<char>> {
    phrases_in(cmd.phrases@, lang)
}

pub fn clone_strings(v: &Vec<String>) -> (r: Vec<String>)
    ensures
        strs(r@) == strs(v@),
{
    let mut r: Vec<String> = Vec::new();
    let mut i: usize = 0;
    while i < v.len()
        invariant
            i <= v@.len(),
            r@ == v@.take(i as int),
        decreases v@.len() - i,
    {
        let s = v[i].clone();
        r.push(s);
        assert(r@ =~= v@.take(i + 1));
        i += 1;
    }
    assert(v@.take(v@.len() as int) =~= v@);
    r
}

impl JCommand {
    /// The phrases of this command in `lang`.
    pub fn get_phrases(&self, lang: &str) -> (r: Vec<String>)
        ensures
            strs(r@) == phrases_for(*self, lang@),
    {
        let mut i: usize = 0;
        assert(self.phrases@.skip(0) =~= self.phrases@);
        while i < self.phrases.len()
            invariant
                i <= self.phrases@.len(),
                phrases_for(*self, lang@) == phrases_in(self.phrases@.skip(i as int), lang@),
            decreases self.phrases@.len() - i,
        {
            assert(self.phrases@.skip(i as int).drop_first() =~= self.phrases@.skip(i + 1));
            if str_eq(self.phrases[i].lang.as_str(), lang) {
                return clone_strings(&self.phrases[i].phrases);
            }
            i += 1;
        }
        Vec::new()
    }

    /// A command of the legacy pack format, whose phrases are Russian.
    pub fn from_legacy_ru(
        id: String,
        action: String,
        exe_path: String,
        exe_args: Vec<String>,
        cli_cmd: String,
        cli_args: Vec<String>,
        script: String,
        sandbox: String,
        timeout: u64,
        phrases: Vec<String>,
        sounds: Vec<String>,
    ) -> (c: JCommand)
        ensures
            c.id == id,
            c.cmd_type == action,
            c.exe_path == exe_path,
            c.exe_args == exe_args,
            c.cli_cmd == cli_cmd,
            c.cli_args == cli_args,
            c.script == script,
            c.sandbox == sandbox,
            c.timeout == timeout,
            c.phrases@.len() == 1,
            c.phrases@[0].lang@ == "ru"@,
            c.phrases@[0].phrases == phrases,
            c.sounds == sounds,
    {
        let mut sets: Vec<PhraseSet> = Vec::new();
        sets.push(PhraseSet { lang: "ru".to_owned(), phrases });
        JCommand {
            id,
            cmd_type: action,
            exe_path,
            exe_args,
            cli_cmd,
            cli_args,
            script,
            sandbox,
            timeout,
            phrases: sets,
            sounds,
        }
    }
}

/// `(i, j)` names a command of the packs.
pub open spec fn valid_pos(packs: Seq<JCommandsList>, i: int, j: int) -> bool {
    0 <= i < packs.len() && 0 <= j < packs[i].commands@.len()
}

/// The command at `(i, j)`.
pub open spec fn cmd_at(packs: Seq<JCommandsList>, i: int, j: int) -> JCommand {
    packs[i].commands@[j]
}

/// `(i2, j2)` comes before `(i, j)` in pack order.
pub open spec fn pos_before(i2: int, j2: int, i: int, j: int) -> bool {
    i2 < i || (i2 == i && j2 < j)
}

/// The command at `(i, j)` is the first whose id is `id`.
pub open spec fn first_with_id(packs: Seq<JCommandsList>, id: Seq<char>, i: int, j: int) -> bool {
    &&& valid_pos(packs, i, j)
    &&& cmd_at(packs, i, j).id@ == id
    &&& forall|i2: int, j2: int|
        #![trigger cmd_at(packs, i2, j2)]
        valid_pos(packs, i2, j2) && pos_before(i2, j2, i, j) ==> cmd_at(packs, i2, j2).id@ != id
}

/// At most one position is the first with a given id.
pub proof fn lemma_first_with_id_unique(
    packs: Seq<JCommandsList>,
    id: Seq<char>,
    i: int,
    j: int,
    i2: int,
    j2: int,
)
    requires
        first_with_id(packs, id, i, j),
        first_with_id(packs, id, i2, j2),
    ensures
        i == i2 && j == j2,
{
    if pos_before(i2, j2, i, j) {
        assert(cmd_at(packs, i2, j2).id@ != id);
    } else if pos_before(i, j, i2, j2) {
        assert(cmd_at(packs, i, j).id@ != id);
    }
}

/// Some command has id `id`.
pub open spec fn has_id(packs: Seq<JCommandsList>, id: Seq<char>) -> bool {
    exists|i: int, j: int| #[trigger] valid_pos(packs, i, j) && cmd_at(packs, i, j).id@ == id
}

/// The first command (in pack order) whose id is `id`, with its pack's path.
pub fn get_command_by_id<'a>(commands: &'a [JCommandsList], id: &str) -> (r: Option<
    (&'a String, &'a JCommand),
>)
    ensures
        r is None <==> !has_id(commands@, id@),
        r matches Some((p, c)) ==> exists|i: int, j: int|
            first_with_id(commands@, id@, i, j) && *p == commands@[i].path && *c == cmd_at(
                commands@,
                i,
                j,
            ),
{
    let mut i: usize = 0;
    while i < commands.len()
        invariant
            i <= commands@.len(),
            forall|i2: int, j2: int|
                #![trigger cmd_at(commands@, i2, j2)]
                valid_pos(commands@, i2, j2) && i2 < i ==> cmd_at(commands@, i2, j2).id@ != id@,
        decreases commands@.len() - i,
    {
        let list = &commands[i];
        let mut j: usize = 0;
        while j < list.commands.len()
            invariant
                i < commands@.len(),
                *list == commands@[i as int],
                j <= list.commands@.len(),
                forall|i2: int, j2: int|
                    #![trigger cmd_at(commands@, i2, j2)]
                    valid_pos(commands@, i2, j2) && pos_before(i2, j2, i as int, j as int)
                        ==> cmd_at(commands@, i2, j2).id@ != id@,
            decreases list.commands@.len() - j,
        {
            if str_eq(list.commands[j].id.as_str(), id) {
                assert(first_with_id(commands@, id@, i as int, j as int));
                assert(valid_pos(commands@, i as int, j as int));
                return Some((&list.path, &list.commands[j]));
            }
            j += 1;
        }
        i += 1;
    }
    assert forall|i2: int, j2: int| valid_pos(commands@, i2, j2) implies cmd_at(
        commands@,
        i2,
        j2,
    ).id@ != id@ by {}
    None
}

/// The directory of each pack, in order.
pub fn list_paths<'a>(commands: &'a [JCommandsList]) -> (r: Vec<&'a str>)
    ensures
        r@.len() == commands@.len(),
        forall|i: int| 0 <= i < r@.len() ==> r@[i]@ == #[trigger] commands@[i].path@,
{
    let mut r: Vec<&'a str> = Vec::new();
    let mut i: usize = 0;
    while i < commands.len()
        invariant
            i <= commands@.len(),
            r@.len() == i,
            forall|k: int| 0 <= k < i ==> r@[k]@ == #[trigger] commands@[k].path@,
        decreases commands@.len() - i,
    {
        r.push(commands[i].path.as_str());
        i += 1;
    }
    r
}

/// The phrases of a command in a language are those of its first phrase set in that
/// language, and none when it has no set in that language.
pub proof fn law_phrases_for(sets: Seq<PhraseSet>, lang: Seq<char>)
    ensures
        forall|k: int|
            0 <= k < sets.len() && (#[trigger] sets[k]).lang@ == lang && (forall|m: int|
                0 <= m < k ==> (#[trigger] sets[m]).lang@ != lang) ==> phrases_in(sets, lang)
                == strs(sets[k].phrases@),
        (forall|k: int| 0 <= k < sets.len() ==> (#[trigger] sets[k]).lang@ != lang) ==> phrases_in(
            sets,
            lang,
        ) == Seq::<Seq<char>>::empty(),
    decreases sets.len(),
{
    if sets.len() > 0 {
        law_phrases_for(sets.drop_first(), lang);
        assert forall|k: int|
            0 <= k < sets.len() && (#[trigger] sets[k]).lang@ == lang && (forall|m: int|
                0 <= m < k ==> (#[trigger] sets[m]).lang@ != lang) implies phrases_in(sets, lang)
                == strs(sets[k].phrases@) by {
            if k > 0 {
                assert(sets[0].lang@ != lang);
                let t = sets.drop_first();
                assert(t[k - 1] == sets[k]);
                assert forall|m: int| 0 <= m < k - 1 implies (#[trigger] t[m]).lang@ != lang by {
                    assert(t[m] == sets[m + 1]);
                }
            }
        }
        if forall|k: int| 0 <= k < sets.len() ==> (#[trigger] sets[k]).lang@ != lang {
            let t = sets.drop_first();
            assert(sets[0].lang@ != lang);
            assert forall|k: int| 0 <= k < t.len() implies (#[trigger] t[k]).lang@ != lang by {
                assert(t[k] == sets[k + 1]);
            }
        }
    }
}

} // verus!
