//! Assembling the command packs found in the commands directory.
use vstd::prelude::*;
use crate::command::{JCommand, JCommandsList};
use crate::legacy::{commands_from_legacy, kept, legacy_commands_ok, LegacyFile};

verus! {

/// What was found in one directory of the commands directory.
pub enum PackSource {
    /// A `command.toml`; `None` when it could not be read or parsed.
    Toml { path: String, commands: Option<Vec<JCommand>> },
    /// A legacy `command.yaml` (and no `command.toml`); `None` when it could not be read
    /// or parsed. `pack_name` is the directory's name.
    Yaml { path: String, pack_name: String, file: Option<LegacyFile> },
    /// Neither file.
    Missing,
}

/// The source gives a pack.
pub open spec fn yields(src: PackSource) -> bool {
    match src {
        PackSource::Toml { commands, .. } => commands is Some,
        PackSource::Yaml { file, .. } => match file {
            Some(f) => kept(f.list@, f.list@.len()).len() > 0,
            None => false,
        },
        PackSource::Missing => false,
    }
}

/// `pack` is the pack that `src` gives.
pub open spec fn pack_from(pack: JCommandsList, src: PackSource) -> bool {
    match src {
        PackSource::Toml { path, commands } => pack.path == path && commands == Some(pack.commands),
        PackSource::Yaml { path, pack_name, file } => {
            &&& pack.path == path
            &&& file matches Some(f) && legacy_commands_ok(pack.commands@, f.list@, pack_name@)
        },
        PackSource::Missing => false,
    }
}

/// Positions, among the first `n` sources, of those that give a pack.
pub open spec fn yielding(srcs: Seq<PackSource>, n: nat) -> Seq<nat>
    decreases n,
{
    if n == 0 {
        Seq::empty()
    } else {
        let r = yielding(srcs, (n - 1) as nat);
        if yields(srcs[n - 1]) {
            r.push((n - 1) as nat)
        } else {
            r
        }
    }
}

/// Error text when no pack was found.
pub open spec fn no_packs_message() -> Seq<char> {
    "No commands found"@
}

/// The packs of the commands directory, from what was found in each of its directories,
/// in order: a `command.toml` that was parsed, or else a legacy `command.yaml` that yields
/// commands. It is an error when there is none.
pub fn collect_packs(sources: Vec<PackSource>) -> (r: Result<Vec<JCommandsList>, String>)
    ensures
        r is Ok <==> yielding(sources@, sources@.len()).len() > 0,
        r matches Ok(packs) ==> {
            let ys = yielding(sources@, sources@.len());
            &&& packs@.len() == ys.len()
            &&& forall|k: int|
                0 <= k < packs@.len() ==> pack_from(#[trigger] packs@[k], sources@[ys[k] as int])
        },
        r matches Err(msg) ==> msg@ == no_packs_message(),
{
    let ghost srcs = sources@;
    let mut out: Vec<JCommandsList> = Vec::new();
    let ghost mut n: int = 0;
    for src in it: sources
        invariant
            it.seq() == srcs,
            n == it.index(),
            n <= srcs.len(),
            out@.len() == yielding(srcs, n as nat).len(),
            forall|k: int|
                0 <= k < out@.len() ==> pack_from(
                    #[trigger] out@[k],
                    srcs[yielding(srcs, n as nat)[k] as int],
                ),
    {
        let ghost prev = yielding(srcs, n as nat);
        let ghost s = src;
        assert(s == srcs[n]);
        match src {
            PackSource::Toml { path, commands } => {
                match commands {
                    Some(cmds) => {
                        out.push(JCommandsList { path, commands: cmds });
                        assert(yielding(srcs, (n + 1) as nat) == prev.push(n as nat));
                    },
                    None => {
                        assert(yielding(srcs, (n + 1) as nat) == prev);
                    },
                }
            },
            PackSource::Yaml { path, pack_name, file } => {
                match file {
                    Some(f) => {
                        match commands_from_legacy(&f, pack_name.as_str()) {
                            Ok(cmds) => {
                                out.push(JCommandsList { path, commands: cmds });
                                assert(yielding(srcs, (n + 1) as nat) == prev.push(n as nat));
                            },
                            Err(_) => {
                                assert(yielding(srcs, (n + 1) as nat) == prev);
                            },
                        }
                    },
                    None => {
                        assert(yielding(srcs, (n + 1) as nat) == prev);
                    },
                }
            },
            PackSource::Missing => {
                assert(yielding(srcs, (n + 1) as nat) == prev);
            },
        }
        proof {
            n = n + 1;
        }
    }
    if out.len() == 0 {
        return Err("No commands found".to_owned());
    }
    Ok(out)
}

proof fn lemma_yielding(srcs: Seq<PackSource>, n: nat)
    requires
        n <= srcs.len(),
    ensures
        forall|k: int| 0 <= k < yielding(srcs, n).len() ==> #[trigger] yielding(srcs, n)[k] < n,
        forall|a: int, b: int|
            0 <= a < b < yielding(srcs, n).len() ==> #[trigger] yielding(srcs, n)[a]
                < #[trigger] yielding(srcs, n)[b],
        forall|i: nat| i < n ==> (yielding(srcs, n).contains(i) <==> yields(#[trigger] srcs[i as int])),
    decreases n,
{
    if n > 0 {
        let m = (n - 1) as nat;
        lemma_yielding(srcs, m);
        let r = yielding(srcs, m);
        let y = yielding(srcs, n);
        if yields(srcs[m as int]) {
            assert(y == r.push(m));
            assert forall|k: int| 0 <= k < y.len() implies #[trigger] y[k] < n by {
                if k < r.len() {
                    assert(y[k] == r[k]);
                }
            }
            assert forall|a: int, b: int| 0 <= a < b < y.len() implies #[trigger] y[a]
                < #[trigger] y[b] by {
                assert(y[a] == r[a]);
                if b < r.len() {
                    assert(y[b] == r[b]);
                }
            }
            assert forall|i: nat| i < n implies (y.contains(i) <==> yields(#[trigger] srcs[i as int])) by {
                if i < m {
                    if r.contains(i) {
                        let k = choose|k: int| 0 <= k < r.len() && r[k] == i;
                        assert(y[k] == r[k]);
                    }
                    if y.contains(i) {
                        let k = choose|k: int| 0 <= k < y.len() && y[k] == i;
                        if k < r.len() {
                            assert(y[k] == r[k]);
                        }
                    }
                } else {
                    assert(y[r.len() as int] == m);
                }
            }
        } else {
            assert(y == r);
            assert forall|i: nat| i < n implies (y.contains(i) <==> yields(#[trigger] srcs[i as int])) by {
                if i == m && y.contains(i) {
                    let k = choose|k: int| 0 <= k < y.len() && y[k] == i;
                    assert(y[k] < m);
                }
            }
        }
    }
}

/// Every source that gives a pack contributes it, whatever the other sources are, and in the
/// order of the sources: the positions that `collect_packs` takes packs from are exactly those
/// of the sources that yield, each once, in increasing order. A source that gives nothing (a
/// file that could not be read or parsed, a legacy file without commands) is skipped and the
/// rest still load. A `command.toml` yields when it was parsed; a `command.yaml` when it was
/// parsed and `commands_from_legacy` succeeds on it.
pub proof fn law_packs_from_every_source(srcs: Seq<PackSource>)
    ensures
        forall|i: int|
            0 <= i < srcs.len() ==> (yields(#[trigger] srcs[i]) <==> match srcs[i] {
                PackSource::Toml { commands, .. } => commands is Some,
                PackSource::Yaml { file, .. } => file matches Some(f) && kept(
                    f.list@,
                    f.list@.len(),
                ).len() > 0,
                PackSource::Missing => false,
            }),
        forall|i: int|
            0 <= i < srcs.len() ==> (yielding(srcs, srcs.len()).contains(i as nat) <==> yields(
                #[trigger] srcs[i],
            )),
        forall|k: int|
            0 <= k < yielding(srcs, srcs.len()).len() ==> #[trigger] yielding(srcs, srcs.len())[k]
                < srcs.len(),
        forall|a: int, b: int|
            0 <= a < b < yielding(srcs, srcs.len()).len() ==> #[trigger] yielding(srcs, srcs.len())[a]
                < #[trigger] yielding(srcs, srcs.len())[b],
{
    lemma_yielding(srcs, srcs.len());
    assert forall|i: int| 0 <= i < srcs.len() implies (yielding(srcs, srcs.len()).contains(
        i as nat,
    ) <==> yields(#[trigger] srcs[i])) by {
        assert(srcs[(i as nat) as int] == srcs[i]);
    }
}

} // verus!
