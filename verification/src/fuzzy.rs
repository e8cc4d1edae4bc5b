//! Fuzzy matching of a spoken phrase against the phrases of the commands: the candidates
//! and the choice among their similarity scores. The scores themselves are computed
//! outside this library, as integers ordered like the similarity they stand for.
use vstd::prelude::*;
use crate::command::{
    first_with_id, has_id, lemma_first_with_id_unique, phrases_for, strs, valid_pos, JCommand,
    JCommandsList,
};
use crate::mental_math::{is_mental_math, try_fetch_mental_math};
use crate::text::{spec_to_lowercase, to_lowercase, trim, trim_str};

verus! {

/// How a phrase is compared: trimmed, then lowercased.
pub open spec fn normalized(s: Seq<char>) -> Seq<char> {
    spec_to_lowercase(trim(s))
}

/// `phrase.trim().to_lowercase()`.
pub fn normalize_phrase(phrase: &str) -> (r: String)
    ensures
        r@ == normalized(phrase@),
{
    let t = trim_str(phrase);
    to_lowercase(t.as_str())
}

/// A phrase of a command, to be scored against what was said.
pub struct FuzzyCandidate {
    /// Position of the pack.
    pub list: usize,
    /// Position of the command in its pack.
    pub command: usize,
    /// The command phrase, normalized.
    pub phrase: String,
}

pub open spec fn cand_view(c: FuzzyCandidate) -> (int, int, Seq<char>) {
    (c.list as int, c.command as int, c.phrase@)
}

pub open spec fn cands_view(v: Seq<FuzzyCandidate>) -> Seq<(int, int, Seq<char>)> {
    v.map_values(|c: FuzzyCandidate| cand_view(c))
}

/// The first `n` phrases of one command.
pub open spec fn command_cands(i: int, j: int, ps: Seq<Seq<char>>, n: nat) -> Seq<
    (int, int, Seq<char>),
>
    decreases n,
{
    if n == 0 {
        Seq::empty()
    } else {
        command_cands(i, j, ps, (n - 1) as nat).push((i, j, normalized(ps[n - 1])))
    }
}

/// The phrases of the first `n` commands of pack `i`.
pub open spec fn pack_cands(i: int, cmds: Seq<JCommand>, lang: Seq<char>, n: nat) -> Seq<
    (int, int, Seq<char>),
>
    decreases n,
{
    if n == 0 {
        Seq::empty()
    } else {
        let ps = phrases_for(cmds[n - 1], lang);
        pack_cands(i, cmds, lang, (n - 1) as nat) + command_cands(i, n - 1, ps, ps.len())
    }
}

/// The phrases of the commands of the first `n` packs, in pack, command, phrase order.
pub open spec fn all_cands(packs: Seq<JCommandsList>, lang: Seq<char>, n: nat) -> Seq<
    (int, int, Seq<char>),
>
    decreases n,
{
    if n == 0 {
        Seq::empty()
    } else {
        let cmds = packs[n - 1].commands@;
        all_cands(packs, lang, (n - 1) as nat) + pack_cands(n - 1, cmds, lang, cmds.len())
    }
}

/// Every phrase of every command in `lang`, normalized, with the position of its command,
/// in pack, command, phrase order.
pub fn fuzzy_candidates(commands: &[JCommandsList], lang: &str) -> (r: Vec<FuzzyCandidate>)
    ensures
        cands_view(r@) == all_cands(commands@, lang@, commands@.len()),
{
    let mut out: Vec<FuzzyCandidate> = Vec::new();
    let mut i: usize = 0;
    while i < commands.len()
        invariant
            i <= commands@.len(),
            cands_view(out@) == all_cands(commands@, lang@, i as nat),
        decreases commands@.len() - i,
    {
        let cmds = &commands[i].commands;
        let ghost base = cands_view(out@);
        let mut j: usize = 0;
        while j < cmds.len()
            invariant
                i < commands@.len(),
                *cmds == commands@[i as int].commands,
                j <= cmds@.len(),
                base == all_cands(commands@, lang@, i as nat),
                cands_view(out@) == base + pack_cands(i as int, cmds@, lang@, j as nat),
            decreases cmds@.len() - j,
        {
            let phrases = cmds[j].get_phrases(lang);
            let ghost ps = phrases_for(cmds@[j as int], lang@);
            let ghost mid = cands_view(out@);
            let mut k: usize = 0;
            while k < phrases.len()
                invariant
                    i < commands@.len(),
                    j < cmds@.len(),
                    strs(phrases@) == ps,
                    k <= phrases@.len(),
                    cands_view(out@) == mid + command_cands(i as int, j as int, ps, k as nat),
                decreases phrases@.len() - k,
            {
                let p = normalize_phrase(phrases[k].as_str());
                let ghost before = cands_view(out@);
                assert(ps[k as int] == phrases@[k as int]@);
                out.push(FuzzyCandidate { list: i, command: j, phrase: p });
                assert(cands_view(out@) =~= before.push(cand_view(out@.last())));
                assert(mid + command_cands(i as int, j as int, ps, (k + 1) as nat) =~= (mid
                    + command_cands(i as int, j as int, ps, k as nat)).push(
                    (i as int, j as int, normalized(ps[k as int])),
                ));
                k += 1;
            }
            assert(base + pack_cands(i as int, cmds@, lang@, (j + 1) as nat) =~= base + pack_cands(
                i as int,
                cmds@,
                lang@,
                j as nat,
            ) + command_cands(i as int, j as int, ps, ps.len()));
            j += 1;
        }
        i += 1;
    }
    out
}

/// The first of the first `n` scores that reaches `perfect`.
pub open spec fn first_perfect(keys: Seq<u64>, perfect: u64, n: nat) -> Option<int>
    decreases n,
{
    if n == 0 {
        None
    } else {
        match first_perfect(keys, perfect, (n - 1) as nat) {
            Some(k) => Some(k),
            None => if keys[n - 1] >= perfect {
                Some(n - 1)
            } else {
                None
            },
        }
    }
}

/// Among the first `n` scores, the first of the highest ones that beat `threshold`.
pub open spec fn best_above(keys: Seq<u64>, threshold: u64, n: nat) -> Option<int>
    decreases n,
{
    if n == 0 {
        None
    } else {
        let b = best_above(keys, threshold, (n - 1) as nat);
        let bar = match b {
            Some(k) => keys[k],
            None => threshold,
        };
        if keys[n - 1] > bar {
            Some(n - 1)
        } else {
            b
        }
    }
}

/// The candidate chosen by its score: the first perfect one, else the first of the best
/// ones above the threshold.
pub open spec fn chosen(keys: Seq<u64>, threshold: u64, perfect: u64) -> Option<int> {
    match first_perfect(keys, perfect, keys.len()) {
        Some(k) => Some(k),
        None => best_above(keys, threshold, keys.len()),
    }
}

/// What `best_above` picks, in terms of the scores alone.
pub proof fn lemma_best_above(keys: Seq<u64>, threshold: u64, n: nat)
    requires
        n <= keys.len(),
    ensures
        best_above(keys, threshold, n) matches Some(k) ==> {
            &&& 0 <= k < n
            &&& keys[k] > threshold
            &&& forall|m: int| 0 <= m < n ==> keys[m] <= keys[k]
            &&& forall|m: int| 0 <= m < k ==> keys[m] < keys[k]
        },
        best_above(keys, threshold, n) is None ==> forall|m: int| 0 <= m < n ==> keys[m] <= threshold,
    decreases n,
{
    if n > 0 {
        lemma_best_above(keys, threshold, (n - 1) as nat);
    }
}

/// What `first_perfect` picks, in terms of the scores alone.
pub proof fn lemma_first_perfect(keys: Seq<u64>, perfect: u64, n: nat)
    requires
        n <= keys.len(),
    ensures
        first_perfect(keys, perfect, n) matches Some(k) ==> 0 <= k < n && keys[k] >= perfect
            && forall|m: int| 0 <= m < k ==> keys[m] < perfect,
        first_perfect(keys, perfect, n) is None ==> forall|m: int| 0 <= m < n ==> keys[m] < perfect,
    decreases n,
{
    if n > 0 {
        lemma_first_perfect(keys, perfect, (n - 1) as nat);
    }
}

/// The position of the chosen candidate, given the score of each candidate: the first whose
/// score reaches `perfect`, else the first of those with the highest score, if that beats
/// `threshold`.
pub fn pick_match(keys: &Vec<u64>, threshold: u64, perfect: u64) -> (r: Option<usize>)
    ensures
        r matches Some(k) ==> chosen(keys@, threshold, perfect) == Some(k as int),
        r is None ==> chosen(keys@, threshold, perfect) is None,
        r matches Some(k) ==> k < keys@.len(),
{
    let mut best: Option<usize> = None;
    let mut best_key = threshold;
    let mut i: usize = 0;
    while i < keys.len()
        invariant
            i <= keys@.len(),
            first_perfect(keys@, perfect, i as nat) is None,
            match best {
                Some(k) => best_above(keys@, threshold, i as nat) == Some(k as int) && best_key
                    == keys@[k as int] && k < i,
                None => best_above(keys@, threshold, i as nat) is None && best_key == threshold,
            },
        decreases keys@.len() - i,
    {
        let key = keys[i];
        if key >= perfect {
            proof {
                lemma_first_perfect(keys@, perfect, keys@.len());
                lemma_first_perfect(keys@, perfect, (i + 1) as nat);
                lemma_first_perfect(keys@, perfect, i as nat);
                first_perfect_prefix(keys@, perfect, (i + 1) as nat, keys@.len());
            }
            return Some(i);
        }
        if key > best_key {
            best = Some(i);
            best_key = key;
        }
        i += 1;
    }
    best
}

proof fn first_perfect_prefix(keys: Seq<u64>, perfect: u64, n: nat, m: nat)
    requires
        n <= m <= keys.len(),
        first_perfect(keys, perfect, n) is Some,
    ensures
        first_perfect(keys, perfect, m) == first_perfect(keys, perfect, n),
    decreases m - n,
{
    if m > n {
        first_perfect_prefix(keys, perfect, n, (m - 1) as nat);
    }
}

/// The choice among scored candidates: a perfect score wins at once (the first one);
/// otherwise the first of the highest scores wins, and only if it beats the threshold.
pub proof fn law_fuzzy_choice(keys: Seq<u64>, threshold: u64, perfect: u64)
    ensures
        chosen(keys, threshold, perfect) matches Some(k) ==> 0 <= k < keys.len(),
        (exists|m: int| 0 <= m < keys.len() && keys[m] >= perfect) ==> (chosen(
            keys,
            threshold,
            perfect,
        ) matches Some(k) && keys[k] >= perfect && forall|m: int|
            0 <= m < k ==> keys[m] < perfect),
        (forall|m: int| 0 <= m < keys.len() ==> keys[m] < perfect) ==> match chosen(
            keys,
            threshold,
            perfect,
        ) {
            Some(k) => keys[k] > threshold && (forall|m: int|
                0 <= m < keys.len() ==> keys[m] <= keys[k]) && (forall|m: int|
                0 <= m < k ==> keys[m] < keys[k]),
            None => forall|m: int| 0 <= m < keys.len() ==> keys[m] <= threshold,
        },
{
    lemma_first_perfect(keys, perfect, keys.len());
    lemma_best_above(keys, threshold, keys.len());
}

proof fn lemma_command_cands_pos(i: int, j: int, ps: Seq<Seq<char>>, n: nat)
    requires
        n <= ps.len(),
    ensures
        command_cands(i, j, ps, n).len() == n,
        forall|k: int|
            0 <= k < n ==> #[trigger] command_cands(i, j, ps, n)[k] == (i, j, normalized(ps[k])),
    decreases n,
{
    if n > 0 {
        lemma_command_cands_pos(i, j, ps, (n - 1) as nat);
    }
}

proof fn lemma_pack_cands_pos(packs: Seq<JCommandsList>, i: int, lang: Seq<char>, n: nat)
    requires
        0 <= i < packs.len(),
        n <= packs[i].commands@.len(),
    ensures
        forall|k: int|
            0 <= k < pack_cands(i, packs[i].commands@, lang, n).len() ==> {
                let c = #[trigger] pack_cands(i, packs[i].commands@, lang, n)[k];
                c.0 == i && 0 <= c.1 < n
            },
    decreases n,
{
    if n > 0 {
        let cmds = packs[i].commands@;
        lemma_pack_cands_pos(packs, i, lang, (n - 1) as nat);
        let ps = phrases_for(cmds[n - 1], lang);
        lemma_command_cands_pos(i, n - 1, ps, ps.len());
        let prev = pack_cands(i, cmds, lang, (n - 1) as nat);
        let cur = command_cands(i, n - 1, ps, ps.len());
        assert forall|k: int| 0 <= k < pack_cands(i, cmds, lang, n).len() implies {
            let c = #[trigger] pack_cands(i, cmds, lang, n)[k];
            c.0 == i && 0 <= c.1 < n
        } by {
            if k < prev.len() {
                assert(pack_cands(i, cmds, lang, n)[k] == prev[k]);
            } else {
                assert(pack_cands(i, cmds, lang, n)[k] == cur[k - prev.len()]);
            }
        }
    }
}

/// Every candidate names a command of the packs.
proof fn lemma_cands_valid(packs: Seq<JCommandsList>, lang: Seq<char>, n: nat)
    requires
        n <= packs.len(),
    ensures
        forall|k: int|
            0 <= k < all_cands(packs, lang, n).len() ==> {
                let c = #[trigger] all_cands(packs, lang, n)[k];
                valid_pos(packs, c.0, c.1) && c.0 < n
            },
    decreases n,
{
    if n > 0 {
        lemma_cands_valid(packs, lang, (n - 1) as nat);
        let cmds = packs[n - 1].commands@;
        lemma_pack_cands_pos(packs, n - 1, lang, cmds.len());
        let prev = all_cands(packs, lang, (n - 1) as nat);
        let cur = pack_cands(n - 1, cmds, lang, cmds.len());
        assert forall|k: int| 0 <= k < all_cands(packs, lang, n).len() implies {
            let c = #[trigger] all_cands(packs, lang, n)[k];
            valid_pos(packs, c.0, c.1) && c.0 < n
        } by {
            if k < prev.len() {
                assert(all_cands(packs, lang, n)[k] == prev[k]);
            } else {
                assert(all_cands(packs, lang, n)[k] == cur[k - prev.len()]);
            }
        }
    }
}

/// Where looking up a phrase stands after the steps that need no similarity score.
pub enum FetchStep<'a> {
    /// The lookup is over, with this result.
    Found(Option<(&'a String, &'a JCommand)>),
    /// The candidates have to be scored against `phrase` (normalized) and the choice made
    /// with `finish_fetch`.
    Score { phrase: String, candidates: Vec<FuzzyCandidate> },
}

/// What looking up a normalized phrase comes to before any similarity is scored.
pub enum FetchPlan {
    /// Nothing is found.
    Nothing,
    /// The command at this position (pack, command) is found.
    Command(int, int),
    /// These candidates are to be scored against this phrase.
    Score(Seq<char>, Seq<(int, int, Seq<char>)>),
}

/// The plan for the normalized phrase `n`: nothing for an empty phrase; for arithmetic, the
/// first `mental_math` command when there is one; otherwise every phrase of every command in
/// `lang`, to be scored against `n`.
pub open spec fn fetch_plan(n: Seq<char>, lang: Seq<char>, packs: Seq<JCommandsList>) -> FetchPlan {
    if n.len() == 0 {
        FetchPlan::Nothing
    } else if is_mental_math(n, lang) && has_id(packs, "mental_math"@) {
        let (i, j) = choose|i: int, j: int| first_with_id(packs, "mental_math"@, i, j);
        FetchPlan::Command(i, j)
    } else {
        FetchPlan::Score(n, all_cands(packs, lang, packs.len()))
    }
}

/// The step `r` carries out the plan `plan` over `packs`.
pub open spec fn step_follows<'a>(r: FetchStep<'a>, plan: FetchPlan, packs: Seq<JCommandsList>) -> bool {
    match plan {
        FetchPlan::Nothing => r == FetchStep::Found(None),
        FetchPlan::Command(i, j) => r matches FetchStep::Found(Some((p, c))) && valid_pos(packs, i, j)
            && *p == packs[i].path && *c == packs[i].commands@[j],
        FetchPlan::Score(n, cs) => r matches FetchStep::Score { phrase, candidates }
            && phrase@ == n && cands_view(candidates@) == cs,
    }
}

/// The first steps of looking up the command a spoken phrase asks for: the phrase is
/// normalized; nothing is found for an empty phrase; a phrase that looks like arithmetic
/// goes to the `mental_math` command when there is one; otherwise every phrase of every
/// command in `lang` is a candidate to be scored.
pub fn begin_fetch<'a>(phrase: &str, lang: &str, commands: &'a [JCommandsList]) -> (r: FetchStep<'a>)
    ensures
        step_follows(r, fetch_plan(normalized(phrase@), lang@, commands@), commands@),
        r matches FetchStep::Score { candidates, .. } ==> forall|k: int|
            0 <= k < candidates@.len() ==> valid_pos(
                commands@,
                #[trigger] candidates@[k].list as int,
                candidates@[k].command as int,
            ),
{
    let p = normalize_phrase(phrase);
    if p.as_str().is_empty() {
        return FetchStep::Found(None);
    }
    match try_fetch_mental_math(p.as_str(), lang, commands) {
        Some(m) => {
            proof {
                let (i, j) = choose|i: int, j: int|
                    first_with_id(commands@, "mental_math"@, i, j) && *m.0 == commands@[i].path
                        && *m.1 == commands@[i].commands@[j];
                assert(valid_pos(commands@, i, j));
                assert(has_id(commands@, "mental_math"@));
                let (i2, j2) = choose|i2: int, j2: int|
                    first_with_id(commands@, "mental_math"@, i2, j2);
                lemma_first_with_id_unique(commands@, "mental_math"@, i, j, i2, j2);
            }
            FetchStep::Found(Some(m))
        },
        None => {
            let candidates = fuzzy_candidates(commands, lang);
            proof {
                lemma_begin_fetch_candidates(commands@, lang@, candidates@);
            }
            FetchStep::Score { phrase: p, candidates }
        },
    }
}

/// Looking up a phrase and looking up its normalized form follow the same plan, and so find
/// the same command, wherever the lowercased, trimmed phrase has no whitespace at its ends and
/// is left as it is by lowercasing.
pub proof fn law_fetch_normalized(phrase: Seq<char>, lang: Seq<char>, packs: Seq<JCommandsList>)
    requires
        trim(normalized(phrase)) == normalized(phrase),
        spec_to_lowercase(normalized(phrase)) == normalized(phrase),
    ensures
        normalized(normalized(phrase)) == normalized(phrase),
        fetch_plan(normalized(normalized(phrase)), lang, packs) == fetch_plan(
            normalized(phrase),
            lang,
            packs,
        ),
{
}

/// The last step of looking up a command: given the score of each candidate (integers
/// ordered like the similarity they stand for), the command of the chosen candidate, with
/// its pack's path; `None` when no candidate is chosen.
pub fn finish_fetch<'a>(
    commands: &'a [JCommandsList],
    candidates: &Vec<FuzzyCandidate>,
    keys: &Vec<u64>,
    threshold: u64,
    perfect: u64,
) -> (r: Option<(&'a String, &'a JCommand)>)
    requires
        keys@.len() == candidates@.len(),
        forall|k: int|
            0 <= k < candidates@.len() ==> valid_pos(
                commands@,
                #[trigger] candidates@[k].list as int,
                candidates@[k].command as int,
            ),
    ensures
        chosen(keys@, threshold, perfect) is None ==> r is None,
        chosen(keys@, threshold, perfect) matches Some(k) ==> {
            let c = candidates@[k];
            r == Some(
                (
                    &commands@[c.list as int].path,
                    &commands@[c.list as int].commands@[c.command as int],
                ),
            )
        },
{
    match pick_match(keys, threshold, perfect) {
        Some(k) => {
            let c = &candidates[k];
            assert(valid_pos(commands@, c.list as int, c.command as int));
            let list = &commands[c.list];
            Some((&list.path, &list.commands[c.command]))
        },
        None => None,
    }
}

proof fn lemma_begin_fetch_candidates(commands: Seq<JCommandsList>, lang: Seq<char>, candidates: Seq<
    FuzzyCandidate,
>)
    requires
        cands_view(candidates) == all_cands(commands, lang, commands.len()),
    ensures
        forall|k: int|
            0 <= k < candidates.len() ==> valid_pos(
                commands,
                #[trigger] candidates[k].list as int,
                candidates[k].command as int,
            ),
{
    lemma_cands_valid(commands, lang, commands.len());
    assert forall|k: int| 0 <= k < candidates.len() implies valid_pos(
        commands,
        #[trigger] candidates[k].list as int,
        candidates[k].command as int,
    ) by {
        assert(cands_view(candidates)[k] == all_cands(commands, lang, commands.len())[k]);
    }
}

proof fn lemma_command_cands_map(i: int, j: int, ps: Seq<Seq<char>>)
    ensures
        command_cands(i, j, ps, ps.len()) == ps.map_values(|p: Seq<char>| (i, j, normalized(p))),
{
    lemma_command_cands_pos(i, j, ps, ps.len());
    assert(command_cands(i, j, ps, ps.len()) =~= ps.map_values(
        |p: Seq<char>| (i, j, normalized(p)),
    ));
}

/// The candidates of the commands of one pack, in order.
pub open spec fn pack_cands_of(i: int, cmds: Seq<JCommand>, lang: Seq<char>) -> Seq<
    (int, int, Seq<char>),
> {
    Seq::new(
        cmds.len(),
        |j: int| phrases_for(cmds[j], lang).map_values(|p: Seq<char>| (i, j, normalized(p))),
    ).flatten()
}

proof fn lemma_pack_cands_flat(i: int, cmds: Seq<JCommand>, lang: Seq<char>, n: nat)
    requires
        n <= cmds.len(),
    ensures
        pack_cands(i, cmds, lang, n) == pack_cands_of(i, cmds.take(n as int), lang),
    decreases n,
{
    let f = |j: int| phrases_for(cmds[j], lang).map_values(|p: Seq<char>| (i, j, normalized(p)));
    let c = cmds.take(n as int);
    let g = |j: int| phrases_for(c[j], lang).map_values(|p: Seq<char>| (i, j, normalized(p)));
    if n == 0 {
        assert(Seq::new(0, g) =~= Seq::<Seq<(int, int, Seq<char>)>>::empty());
        assert(Seq::<Seq<(int, int, Seq<char>)>>::empty().flatten() =~= Seq::empty());
    } else {
        let m = (n - 1) as nat;
        lemma_pack_cands_flat(i, cmds, lang, m);
        let c1 = cmds.take(m as int);
        let g1 = |j: int| phrases_for(c1[j], lang).map_values(|p: Seq<char>| (i, j, normalized(p)));
        assert(Seq::new(n, g) =~= Seq::new(m, g1).push(g(m as int)));
        Seq::new(m, g1).lemma_flatten_push(g(m as int));
        let ps = phrases_for(cmds[m as int], lang);
        lemma_command_cands_map(i, m as int, ps);
        assert(c[m as int] == cmds[m as int]);
    }
}

/// Every phrase in `lang` of every command of the packs is a candidate, normalized, with the
/// position of its command, and nothing else is: the candidates are, pack after pack and
/// command after command, the phrases of each command in their order.
pub proof fn law_fuzzy_candidates(packs: Seq<JCommandsList>, lang: Seq<char>)
    ensures
        all_cands(packs, lang, packs.len()) == Seq::new(
            packs.len(),
            |i: int| pack_cands_of(i, packs[i].commands@, lang),
        ).flatten(),
{
    lemma_all_cands_flat(packs, lang, packs.len());
    assert(packs.take(packs.len() as int) =~= packs);
}

proof fn lemma_all_cands_flat(packs: Seq<JCommandsList>, lang: Seq<char>, n: nat)
    requires
        n <= packs.len(),
    ensures
        all_cands(packs, lang, n) == Seq::new(
            n,
            |i: int| pack_cands_of(i, packs[i].commands@, lang),
        ).flatten(),
    decreases n,
{
    let f = |i: int| pack_cands_of(i, packs[i].commands@, lang);
    if n == 0 {
        assert(Seq::new(0, f) =~= Seq::<Seq<(int, int, Seq<char>)>>::empty());
        assert(Seq::<Seq<(int, int, Seq<char>)>>::empty().flatten() =~= Seq::empty());
    } else {
        let m = (n - 1) as nat;
        lemma_all_cands_flat(packs, lang, m);
        assert(Seq::new(n, f) =~= Seq::new(m, f).push(f(m as int)));
        Seq::new(m, f).lemma_flatten_push(f(m as int));
        let cmds = packs[m as int].commands@;
        lemma_pack_cands_flat(m as int, cmds, lang, cmds.len());
        assert(cmds.take(cmds.len() as int) =~= cmds);
    }
}

/// Looking up a phrase: an empty phrase finds nothing; an arithmetic phrase finds the first
/// command with id `mental_math` in pack order when there is one; any other phrase, and an
/// arithmetic one when there is no such command, has every phrase of the packs in its
/// language scored against it.
pub proof fn law_fetch_plan(n: Seq<char>, lang: Seq<char>, packs: Seq<JCommandsList>)
    ensures
        n.len() == 0 ==> fetch_plan(n, lang, packs) == FetchPlan::Nothing,
        forall|i: int, j: int|
            n.len() > 0 && is_mental_math(n, lang) && #[trigger] first_with_id(packs, "mental_math"@, i, j)
                ==> fetch_plan(n, lang, packs) == FetchPlan::Command(i, j),
        n.len() > 0 && !(is_mental_math(n, lang) && exists|i: int, j: int|
            #[trigger] valid_pos(packs, i, j) && packs[i].commands@[j].id@ == "mental_math"@)
            ==> fetch_plan(n, lang, packs) == FetchPlan::Score(
            n,
            all_cands(packs, lang, packs.len()),
        ),
{
    assert forall|i: int, j: int|
        n.len() > 0 && is_mental_math(n, lang) && #[trigger] first_with_id(packs, "mental_math"@, i, j)
            implies fetch_plan(n, lang, packs) == FetchPlan::Command(i, j) by {
        assert(valid_pos(packs, i, j));
        assert(has_id(packs, "mental_math"@));
        let (i2, j2) = choose|i2: int, j2: int| first_with_id(packs, "mental_math"@, i2, j2);
        lemma_first_with_id_unique(packs, "mental_math"@, i, j, i2, j2);
    }
    if n.len() > 0 && has_id(packs, "mental_math"@) {
        let (i, j) = choose|i: int, j: int| #[trigger] valid_pos(packs, i, j) && crate::command::cmd_at(packs, i, j).id@ == "mental_math"@;
        assert(valid_pos(packs, i, j) && packs[i].commands@[j].id@ == "mental_math"@);
    }
}

} // verus!
