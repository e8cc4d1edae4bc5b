//! A fingerprint of the loaded commands: SHA-256 over the language and, sorted by id,
//! each command's id and phrases in that language.
use vstd::prelude::*;
use vstd::utf8::encode_utf8;
use crate::command::{phrases_for, strs, JCommand, JCommandsList};
use crate::text::push_char;

verus! {

/// Names what SHA-256 gives for a byte string.
pub uninterp spec fn spec_sha256(data: Seq<u8>) -> Seq<u8>;

/// `sha2::Sha256::digest`: the SHA-256 digest of `data`, 32 bytes long.
#[verifier::external_body]
fn sha256(data: &[u8]) -> (d: Vec<u8>)
    ensures
        d@ == spec_sha256(data@),
        d@.len() == 32,
{
    <sha2::Sha256 as sha2::Digest>::digest(data).to_vec()
}

/// The UTF-8 encoding of the characters of a string.
pub open spec fn utf8(s: Seq<char>) -> Seq<u8> {
    encode_utf8(s)
}

/// An id with the phrases of its command.
pub struct HashEntry {
    pub id: String,
    pub phrases: Vec<String>,
}

pub open spec fn entry_view(e: HashEntry) -> (Seq<char>, Seq<Seq<char>>) {
    (e.id@, strs(e.phrases@))
}

pub open spec fn entries_view(v: Seq<HashEntry>) -> Seq<(Seq<char>, Seq<Seq<char>>)> {
    v.map_values(|e: HashEntry| entry_view(e))
}

/// The entries of the first `n` commands of a pack.
pub open spec fn pack_entries(cmds: Seq<JCommand>, lang: Seq<char>, n: nat) -> Seq<
    (Seq<char>, Seq<Seq<char>>),
>
    decreases n,
{
    if n == 0 {
        Seq::empty()
    } else {
        pack_entries(cmds, lang, (n - 1) as nat).push(
            (cmds[n - 1].id@, phrases_for(cmds[n - 1], lang)),
        )
    }
}

/// The entries of the commands of the first `n` packs, in pack order.
pub open spec fn all_entries(packs: Seq<JCommandsList>, lang: Seq<char>, n: nat) -> Seq<
    (Seq<char>, Seq<Seq<char>>),
>
    decreases n,
{
    if n == 0 {
        Seq::empty()
    } else {
        let cmds = packs[n - 1].commands@;
        all_entries(packs, lang, (n - 1) as nat) + pack_entries(cmds, lang, cmds.len())
    }
}

/// Lexicographic order of byte strings (the order of `str`).
pub open spec fn bytes_lt(a: Seq<u8>, b: Seq<u8>) -> bool
    decreases a.len(),
{
    if a.len() == 0 {
        b.len() > 0
    } else if b.len() == 0 {
        false
    } else if a[0] != b[0] {
        a[0] < b[0]
    } else {
        bytes_lt(a.drop_first(), b.drop_first())
    }
}

/// The id of `x` sorts after the id of `y`.
pub open spec fn id_after(x: (Seq<char>, Seq<Seq<char>>), y: (Seq<char>, Seq<Seq<char>>)) -> bool {
    bytes_lt(utf8(y.0), utf8(x.0))
}

/// `x` inserted into `s` after every entry whose id does not sort after it.
pub open spec fn insert_entry(s: Seq<(Seq<char>, Seq<Seq<char>>)>, x: (Seq<char>, Seq<Seq<char>>)) -> Seq<
    (Seq<char>, Seq<Seq<char>>),
>
    decreases s.len(),
{
    if s.len() == 0 || !id_after(s.last(), x) {
        s.push(x)
    } else {
        insert_entry(s.drop_last(), x).push(s.last())
    }
}

/// The entries stably sorted by id.
pub open spec fn sort_entries(s: Seq<(Seq<char>, Seq<Seq<char>>)>) -> Seq<
    (Seq<char>, Seq<Seq<char>>),
>
    decreases s.len(),
{
    if s.len() == 0 {
        s
    } else {
        insert_entry(sort_entries(s.drop_last()), s.last())
    }
}

/// The bytes of a list of phrases, one after another.
pub open spec fn phrases_bytes(ps: Seq<Seq<char>>) -> Seq<u8>
    decreases ps.len(),
{
    if ps.len() == 0 {
        Seq::empty()
    } else {
        phrases_bytes(ps.drop_last()) + utf8(ps.last())
    }
}

/// The bytes of the entries: each id followed by its phrases.
pub open spec fn entries_bytes(es: Seq<(Seq<char>, Seq<Seq<char>>)>) -> Seq<u8>
    decreases es.len(),
{
    if es.len() == 0 {
        Seq::empty()
    } else {
        entries_bytes(es.drop_last()) + utf8(es.last().0) + phrases_bytes(es.last().1)
    }
}

/// The bytes that are hashed: the language, `|`, then the sorted entries.
pub open spec fn hash_message(packs: Seq<JCommandsList>, lang: Seq<char>) -> Seq<u8> {
    utf8(lang) + seq![124u8] + entries_bytes(
        sort_entries(all_entries(packs, lang, packs.len())),
    )
}

/// Lowercase hexadecimal digit for `d < 16`.
pub open spec fn hex_digit(d: int) -> char {
    seq!['0', '1', '2', '3', '4', '5', '6', '7', '8', '9', 'a', 'b', 'c', 'd', 'e', 'f'][d]
}

/// Two lowercase hexadecimal digits per byte.
pub open spec fn hex_lower(b: Seq<u8>) -> Seq<char>
    decreases b.len(),
{
    if b.len() == 0 {
        Seq::empty()
    } else {
        hex_lower(b.drop_last()) + seq![hex_digit((b.last() / 16) as int), hex_digit((b.last() % 16) as int)]
    }
}

pub open spec fn is_lower_hex(c: char) -> bool {
    ('0' <= c && c <= '9') || ('a' <= c && c <= 'f')
}

/// Two hexadecimal digits per byte, all of them `0`-`9` or `a`-`f`.
pub proof fn lemma_hex_shape(b: Seq<u8>)
    ensures
        hex_lower(b).len() == 2 * b.len(),
        forall|i: int| 0 <= i < hex_lower(b).len() ==> is_lower_hex(#[trigger] hex_lower(b)[i]),
    decreases b.len(),
{
    if b.len() > 0 {
        lemma_hex_shape(b.drop_last());
        let r = hex_lower(b.drop_last());
        let h = hex_lower(b);
        let d1 = (b.last() / 16) as int;
        let d2 = (b.last() % 16) as int;
        assert forall|d: int| 0 <= d < 16 implies is_lower_hex(#[trigger] hex_digit(d)) by {}
        assert forall|i: int| 0 <= i < h.len() implies is_lower_hex(#[trigger] h[i]) by {
            if i < r.len() {
                assert(h[i] == r[i]);
            } else if i == r.len() {
                assert(h[i] == hex_digit(d1));
            } else {
                assert(h[i] == hex_digit(d2));
            }
        }
    }
}

fn hex_digit_exec(d: u8) -> (c: char)
    requires
        d < 16,
    ensures
        c == hex_digit(d as int),
{
    if d < 8 {
        if d < 4 {
            if d == 0 { '0' } else if d == 1 { '1' } else if d == 2 { '2' } else { '3' }
        } else {
            if d == 4 { '4' } else if d == 5 { '5' } else if d == 6 { '6' } else { '7' }
        }
    } else {
        if d < 12 {
            if d == 8 { '8' } else if d == 9 { '9' } else if d == 10 { 'a' } else { 'b' }
        } else {
            if d == 12 { 'c' } else if d == 13 { 'd' } else if d == 14 { 'e' } else { 'f' }
        }
    }
}

/// The bytes as lowercase hexadecimal, two digits per byte.
pub fn to_hex_lower(b: &Vec<u8>) -> (s: String)
    ensures
        s@ == hex_lower(b@),
{
    let mut s = String::new();
    let mut i: usize = 0;
    while i < b.len()
        invariant
            i <= b@.len(),
            s@ == hex_lower(b@.take(i as int)),
        decreases b@.len() - i,
    {
        let x = b[i];
        push_char(&mut s, hex_digit_exec(x / 16));
        push_char(&mut s, hex_digit_exec(x % 16));
        assert(b@.take(i + 1).drop_last() =~= b@.take(i as int));
        i += 1;
    }
    assert(b@.take(b@.len() as int) =~= b@);
    s
}

fn append_bytes(buf: &mut Vec<u8>, b: &[u8])
    ensures
        final(buf)@ == old(buf)@ + b@,
{
    let mut i: usize = 0;
    while i < b.len()
        invariant
            i <= b@.len(),
            buf@ == old(buf)@ + b@.take(i as int),
        decreases b@.len() - i,
    {
        buf.push(b[i]);
        assert(b@.take(i + 1) =~= b@.take(i as int).push(b@[i as int]));
        i += 1;
    }
    assert(b@.take(b@.len() as int) =~= b@);
}

fn append_str_bytes(buf: &mut Vec<u8>, s: &str)
    ensures
        final(buf)@ == old(buf)@ + utf8(s@),
{
    append_bytes(buf, s.as_bytes());
}

/// Whether the bytes of `a` sort after those of `b`.
fn bytes_after(a: &[u8], b: &[u8]) -> (r: bool)
    ensures
        r == bytes_lt(b@, a@),
{
    assert(a@.skip(0) =~= a@);
    assert(b@.skip(0) =~= b@);
    assert(a@.take(0) =~= b@.take(0));
    let mut i: usize = 0;
    while i < a.len() && i < b.len()
        invariant
            i <= a@.len(),
            i <= b@.len(),
            a@.take(i as int) == b@.take(i as int),
            bytes_lt(b@, a@) == bytes_lt(b@.skip(i as int), a@.skip(i as int)),
        decreases a@.len() - i,
    {
        if a[i] != b[i] {
            assert(b@.skip(i as int)[0] == b@[i as int]);
            assert(a@.skip(i as int)[0] == a@[i as int]);
            return a[i] > b[i];
        }
        assert(b@.skip(i as int).drop_first() =~= b@.skip(i + 1));
        assert(a@.skip(i as int).drop_first() =~= a@.skip(i + 1));
        assert(a@.take(i + 1) =~= a@.take(i as int).push(a@[i as int]));
        assert(b@.take(i + 1) =~= b@.take(i as int).push(b@[i as int]));
        i += 1;
    }
    a.len() > i
}

fn id_after_exec(x: &HashEntry, y: &HashEntry) -> (r: bool)
    ensures
        r == id_after(entry_view(*x), entry_view(*y)),
{
    bytes_after(x.id.as_str().as_bytes(), y.id.as_str().as_bytes())
}

/// `insert_entry` puts `x` at the position found by scanning back from the end.
proof fn lemma_insert_at(s: Seq<(Seq<char>, Seq<Seq<char>>)>, x: (Seq<char>, Seq<Seq<char>>), j: int)
    requires
        0 <= j <= s.len(),
        forall|k: int| j <= k < s.len() ==> id_after(#[trigger] s[k], x),
        j == 0 || !id_after(s[j - 1], x),
    ensures
        insert_entry(s, x) == s.insert(j, x),
    decreases s.len() - j,
{
    if j == s.len() {
        assert(s.push(x) =~= s.insert(j, x));
    } else {
        lemma_insert_at(s.drop_last(), x, j);
        assert(s.drop_last().insert(j, x).push(s.last()) =~= s.insert(j, x));
    }
}

fn sorted_entries(entries: Vec<HashEntry>) -> (r: Vec<HashEntry>)
    ensures
        entries_view(r@) == sort_entries(entries_view(entries@)),
{
    let ghost ev = entries_view(entries@);
    let mut sorted: Vec<HashEntry> = Vec::new();
    let ghost mut n: int = 0;
    proof {
        assert(ev.take(0) =~= Seq::<(Seq<char>, Seq<Seq<char>>)>::empty());
    }
    for e in it: entries
        invariant
            ev == entries_view(it.seq()),
            n == it.index(),
            0 <= n <= ev.len(),
            entries_view(sorted@) == sort_entries(ev.take(n)),
    {
        let ghost sv = entries_view(sorted@);
        let ghost x = entry_view(e);
        assert(x == ev[n]);
        let mut j: usize = sorted.len();
        while j > 0 && id_after_exec(&sorted[j - 1], &e)
            invariant
                j <= sorted@.len(),
                sv == entries_view(sorted@),
                x == entry_view(e),
                forall|k: int| j <= k < sv.len() ==> id_after(#[trigger] sv[k], x),
            decreases j,
        {
            j -= 1;
        }
        proof {
            lemma_insert_at(sv, x, j as int);
            assert(ev.take(n + 1).drop_last() =~= ev.take(n));
        }
        sorted.insert(j, e);
        assert(entries_view(sorted@) =~= sv.insert(j as int, x));
        proof {
            n = n + 1;
        }
    }
    assert(ev.take(ev.len() as int) =~= ev);
    sorted
}

fn collect_entries(commands: &[JCommandsList], lang: &str) -> (r: Vec<HashEntry>)
    ensures
        entries_view(r@) == all_entries(commands@, lang@, commands@.len()),
{
    let mut out: Vec<HashEntry> = Vec::new();
    let mut i: usize = 0;
    while i < commands.len()
        invariant
            i <= commands@.len(),
            entries_view(out@) == all_entries(commands@, lang@, i as nat),
        decreases commands@.len() - i,
    {
        let cmds = &commands[i].commands;
        let ghost base = entries_view(out@);
        let mut j: usize = 0;
        while j < cmds.len()
            invariant
                i < commands@.len(),
                *cmds == commands@[i as int].commands,
                j <= cmds@.len(),
                base == all_entries(commands@, lang@, i as nat),
                entries_view(out@) == base + pack_entries(cmds@, lang@, j as nat),
            decreases cmds@.len() - j,
        {
            let ghost before = entries_view(out@);
            let e = HashEntry { id: cmds[j].id.clone(), phrases: cmds[j].get_phrases(lang) };
            out.push(e);
            assert(entries_view(out@) =~= before.push(entry_view(e)));
            assert(base + pack_entries(cmds@, lang@, (j + 1) as nat) =~= (base + pack_entries(
                cmds@,
                lang@,
                j as nat,
            )).push(entry_view(e)));
            j += 1;
        }
        i += 1;
    }
    out
}

fn append_entries(buf: &mut Vec<u8>, es: &Vec<HashEntry>)
    ensures
        final(buf)@ == old(buf)@ + entries_bytes(entries_view(es@)),
{
    let ghost ev = entries_view(es@);
    let mut i: usize = 0;
    while i < es.len()
        invariant
            i <= es@.len(),
            ev == entries_view(es@),
            buf@ == old(buf)@ + entries_bytes(ev.take(i as int)),
        decreases es@.len() - i,
    {
        let ghost before = buf@;
        append_str_bytes(buf, es[i].id.as_str());
        let ps = &es[i].phrases;
        let ghost pv = strs(ps@);
        let mut k: usize = 0;
        while k < ps.len()
            invariant
                k <= ps@.len(),
                pv == strs(ps@),
                buf@ == before + utf8(es@[i as int].id@) + phrases_bytes(pv.take(k as int)),
            decreases ps@.len() - k,
        {
            append_str_bytes(buf, ps[k].as_str());
            assert(pv.take(k + 1).drop_last() =~= pv.take(k as int));
            k += 1;
        }
        assert(pv.take(ps@.len() as int) =~= pv);
        assert(ev.take(i + 1).drop_last() =~= ev.take(i as int));
        i += 1;
    }
    assert(ev.take(es@.len() as int) =~= ev);
}

/// The fingerprint of the commands for language `lang`: the lowercase hexadecimal SHA-256
/// of the language, `|`, and then, sorted by id (stably, by the bytes of the id), each
/// command's id followed by its phrases in that language.
pub fn commands_hash(commands: &[JCommandsList], lang: &str) -> (h: String)
    ensures
        h@ == hex_lower(spec_sha256(hash_message(commands@, lang@))),
        h@.len() == 64,
        forall|i: int| 0 <= i < h@.len() ==> is_lower_hex(#[trigger] h@[i]),
{
    let entries = collect_entries(commands, lang);
    let sorted = sorted_entries(entries);
    let mut msg: Vec<u8> = Vec::new();
    append_str_bytes(&mut msg, lang);
    let ghost m0 = msg@;
    msg.push(124u8);
    assert(msg@ =~= m0 + seq![124u8]);
    append_entries(&mut msg, &sorted);
    let digest = sha256(msg.as_slice());
    proof {
        lemma_hex_shape(digest@);
    }
    to_hex_lower(&digest)
}

proof fn lemma_lt_irrefl(a: Seq<u8>)
    ensures
        !bytes_lt(a, a),
    decreases a.len(),
{
    if a.len() > 0 {
        lemma_lt_irrefl(a.drop_first());
    }
}

proof fn lemma_lt_trans(a: Seq<u8>, b: Seq<u8>, c: Seq<u8>)
    requires
        bytes_lt(a, b),
        bytes_lt(b, c),
    ensures
        bytes_lt(a, c),
    decreases a.len(),
{
    if a.len() > 0 && b.len() > 0 && c.len() > 0 && a[0] == b[0] && b[0] == c[0] {
        lemma_lt_trans(a.drop_first(), b.drop_first(), c.drop_first());
    }
}

proof fn lemma_lt_total(a: Seq<u8>, b: Seq<u8>)
    requires
        a != b,
    ensures
        bytes_lt(a, b) || bytes_lt(b, a),
    decreases a.len(),
{
    if a.len() > 0 && b.len() > 0 && a[0] == b[0] {
        if a.drop_first() == b.drop_first() {
            assert(a =~= seq![a[0]] + a.drop_first());
            assert(b =~= seq![b[0]] + b.drop_first());
        }
        lemma_lt_total(a.drop_first(), b.drop_first());
    } else if a.len() == 0 && b.len() == 0 {
        assert(a =~= b);
    }
}

proof fn lemma_lt_asym(a: Seq<u8>, b: Seq<u8>)
    requires
        bytes_lt(a, b),
    ensures
        !bytes_lt(b, a),
{
    if bytes_lt(b, a) {
        lemma_lt_trans(a, b, a);
        lemma_lt_irrefl(a);
    }
}

/// Byte strings neither of which sorts before the other are equal.
proof fn lemma_lt_antisym(a: Seq<u8>, b: Seq<u8>)
    requires
        !bytes_lt(a, b),
        !bytes_lt(b, a),
    ensures
        a == b,
{
    if a != b {
        lemma_lt_total(a, b);
    }
}

/// "Does not sort after" is transitive.
proof fn lemma_le_trans(x: (Seq<char>, Seq<Seq<char>>), y: (Seq<char>, Seq<Seq<char>>), z: (
    Seq<char>,
    Seq<Seq<char>>,
))
    requires
        !id_after(x, y),
        !id_after(y, z),
    ensures
        !id_after(x, z),
{
    let (kx, ky, kz) = (utf8(x.0), utf8(y.0), utf8(z.0));
    if bytes_lt(kz, kx) {
        if kx == ky {
        } else {
            lemma_lt_total(kx, ky);
            lemma_lt_trans(kz, kx, ky);
        }
    }
}

/// Entries stand in order of their ids.
pub open spec fn entries_sorted(s: Seq<(Seq<char>, Seq<Seq<char>>)>) -> bool {
    forall|i: int, j: int| 0 <= i < j < s.len() ==> !id_after(#[trigger] s[i], #[trigger] s[j])
}

/// No two entries have the same id.
pub open spec fn distinct_ids(s: Seq<(Seq<char>, Seq<Seq<char>>)>) -> bool {
    forall|i: int, j: int| 0 <= i < j < s.len() ==> (#[trigger] s[i]).0 != (#[trigger] s[j]).0
}

proof fn lemma_insert_multiset(s: Seq<(Seq<char>, Seq<Seq<char>>)>, x: (Seq<char>, Seq<Seq<char>>))
    ensures
        insert_entry(s, x).to_multiset() == s.to_multiset().insert(x),
    decreases s.len(),
{
    broadcast use vstd::seq_lib::group_to_multiset_ensures;

    if s.len() == 0 || !id_after(s.last(), x) {
    } else {
        lemma_insert_multiset(s.drop_last(), x);
        assert(s.drop_last().push(s.last()) =~= s);
        assert(insert_entry(s, x).to_multiset() =~= s.to_multiset().insert(x));
    }
}

proof fn lemma_sort_multiset(s: Seq<(Seq<char>, Seq<Seq<char>>)>)
    ensures
        sort_entries(s).to_multiset() == s.to_multiset(),
    decreases s.len(),
{
    broadcast use vstd::seq_lib::group_to_multiset_ensures;

    if s.len() > 0 {
        lemma_sort_multiset(s.drop_last());
        lemma_insert_multiset(sort_entries(s.drop_last()), s.last());
        assert(s.drop_last().push(s.last()) =~= s);
    }
}

proof fn lemma_insert_sorted(s: Seq<(Seq<char>, Seq<Seq<char>>)>, x: (Seq<char>, Seq<Seq<char>>))
    requires
        entries_sorted(s),
    ensures
        entries_sorted(insert_entry(s, x)),
    decreases s.len(),
{
    broadcast use vstd::seq_lib::group_to_multiset_ensures;

    let r = insert_entry(s, x);
    if s.len() == 0 || !id_after(s.last(), x) {
        assert forall|i: int, j: int| 0 <= i < j < r.len() implies !id_after(
            #[trigger] r[i],
            #[trigger] r[j],
        ) by {
            if j == s.len() {
                if i < s.len() - 1 {
                    assert(!id_after(s[i], s[s.len() - 1]));
                    lemma_le_trans(s[i], s.last(), x);
                }
            }
        }
    } else {
        let d = s.drop_last();
        let t = insert_entry(d, x);
        lemma_insert_sorted(d, x);
        lemma_insert_multiset(d, x);
        assert forall|i: int, j: int| 0 <= i < j < r.len() implies !id_after(
            #[trigger] r[i],
            #[trigger] r[j],
        ) by {
            if j == t.len() {
                let e = t[i];
                assert(r[i] == e);
                assert(t.contains(e));
                assert(t.to_multiset().count(e) > 0);
                if e == x {
                    lemma_lt_asym(utf8(x.0), utf8(s.last().0));
                } else {
                    assert(d.to_multiset().count(e) > 0);
                    assert(d.contains(e));
                    let m = choose|m: int| 0 <= m < d.len() && d[m] == e;
                    assert(s[m] == e);
                    assert(!id_after(s[m], s[s.len() - 1]));
                }
            } else {
                assert(r[i] == t[i] && r[j] == t[j]);
            }
        }
    }
}

proof fn lemma_sort_sorted(s: Seq<(Seq<char>, Seq<Seq<char>>)>)
    ensures
        entries_sorted(sort_entries(s)),
    decreases s.len(),
{
    if s.len() > 0 {
        lemma_sort_sorted(s.drop_last());
        lemma_insert_sorted(sort_entries(s.drop_last()), s.last());
    }
}

/// Distinct ids stay distinct under any rearrangement.
proof fn lemma_distinct_ids_perm(s: Seq<(Seq<char>, Seq<Seq<char>>)>, t: Seq<
    (Seq<char>, Seq<Seq<char>>),
>)
    requires
        distinct_ids(s),
        s.to_multiset() == t.to_multiset(),
    ensures
        distinct_ids(t),
{
    broadcast use vstd::seq_lib::group_to_multiset_ensures;

    assert(s.no_duplicates());
    s.lemma_multiset_has_no_duplicates();
    t.lemma_multiset_has_no_duplicates_conv();
    assert forall|i: int, j: int| 0 <= i < j < t.len() implies (#[trigger] t[i]).0 != (
    #[trigger] t[j]).0 by {
        assert(t[i] != t[j]);
        assert(t.contains(t[i]) && t.contains(t[j]));
        assert(s.to_multiset().count(t[i]) > 0 && s.to_multiset().count(t[j]) > 0);
        assert(s.contains(t[i]) && s.contains(t[j]));
        let p = choose|p: int| 0 <= p < s.len() && s[p] == t[i];
        let q = choose|q: int| 0 <= q < s.len() && s[q] == t[j];
        if p < q {
            assert(s[p].0 != s[q].0);
        } else {
            assert(s[q].0 != s[p].0);
        }
    }
}

/// Sorted rearrangements of the same entries with distinct ids are equal.
proof fn lemma_sorted_unique(a: Seq<(Seq<char>, Seq<Seq<char>>)>, b: Seq<
    (Seq<char>, Seq<Seq<char>>),
>)
    requires
        entries_sorted(a),
        entries_sorted(b),
        distinct_ids(a),
        a.to_multiset() == b.to_multiset(),
    ensures
        a == b,
    decreases a.len(),
{
    broadcast use vstd::seq_lib::group_to_multiset_ensures;

    assert(a.to_multiset().len() == a.len());
    assert(b.to_multiset().len() == b.len());
    if a.len() == 0 {
        assert(b.len() == 0);
        assert(a =~= b);
    } else {
        assert(b.len() == a.len());
        let n = a.len() - 1;
        let x = a[n];
        let y = b[n];
        assert(a.contains(x) && b.contains(y));
        assert(b.to_multiset().count(x) > 0 && a.to_multiset().count(y) > 0);
        assert(a.contains(y) && b.contains(x));
        let p = choose|p: int| 0 <= p < a.len() && a[p] == y;
        let q = choose|q: int| 0 <= q < b.len() && b[q] == x;
        lemma_lt_irrefl(utf8(x.0));
        lemma_lt_irrefl(utf8(y.0));
        if p < n {
            assert(!id_after(a[p], a[n]));
        }
        if q < n {
            assert(!id_after(b[q], b[n]));
        }
        assert(!id_after(y, x));
        assert(!id_after(x, y));
        lemma_lt_antisym(utf8(x.0), utf8(y.0));
        vstd::utf8::encode_utf8_decode_utf8(x.0);
        vstd::utf8::encode_utf8_decode_utf8(y.0);
        assert(x.0 == y.0);
        if p < n {
            assert(a[p].0 != a[n].0);
        }
        assert(p == n);
        assert(x == y);
        let a2 = a.drop_last();
        let b2 = b.drop_last();
        assert(a2.push(x) =~= a);
        assert(b2.push(y) =~= b);
        assert(a2.to_multiset() =~= b2.to_multiset()) by {
            assert(a2.to_multiset().insert(x) == b2.to_multiset().insert(x));
            assert(a2.to_multiset() =~= a2.to_multiset().insert(x).remove(x));
            assert(b2.to_multiset() =~= b2.to_multiset().insert(x).remove(x));
        }
        lemma_sorted_unique(a2, b2);
    }
}

/// The fingerprint does not depend on the order of the commands: packs holding the same
/// ids, each with the same phrases, in whatever order, give the same bytes to hash (and so
/// the same `commands_hash`), as long as no id occurs twice.
pub proof fn law_hash_ignores_order(p1: Seq<JCommandsList>, p2: Seq<JCommandsList>, lang: Seq<char>)
    requires
        all_entries(p1, lang, p1.len()).to_multiset() == all_entries(p2, lang, p2.len()).to_multiset(),
        distinct_ids(all_entries(p1, lang, p1.len())),
    ensures
        hash_message(p1, lang) == hash_message(p2, lang),
        hex_lower(spec_sha256(hash_message(p1, lang))) == hex_lower(spec_sha256(hash_message(p2, lang))),
{
    let e1 = all_entries(p1, lang, p1.len());
    let e2 = all_entries(p2, lang, p2.len());
    let s1 = sort_entries(e1);
    let s2 = sort_entries(e2);
    lemma_sort_multiset(e1);
    lemma_sort_multiset(e2);
    lemma_sort_sorted(e1);
    lemma_sort_sorted(e2);
    lemma_distinct_ids_perm(e1, s1);
    lemma_sorted_unique(s1, s2);
}

proof fn lemma_utf8_concat(a: Seq<char>, b: Seq<char>)
    ensures
        utf8(a + b) == utf8(a) + utf8(b),
    decreases a.len(),
{
    if a.len() == 0 {
        assert(a + b =~= b);
        assert(utf8(a) =~= Seq::<u8>::empty());
        assert(utf8(a) + utf8(b) =~= utf8(b));
    } else {
        lemma_utf8_concat(a.drop_first(), b);
        assert((a + b)[0] == a[0]);
        assert((a + b).drop_first() =~= a.drop_first() + b);
        assert(utf8(a + b) =~= utf8(a) + utf8(b));
    }
}

proof fn lemma_phrases_bytes(ps: Seq<Seq<char>>)
    ensures
        phrases_bytes(ps) == utf8(ps.flatten()),
    decreases ps.len(),
{
    if ps.len() == 0 {
        assert(ps.flatten() =~= Seq::<char>::empty());
    } else {
        lemma_phrases_bytes(ps.drop_last());
        assert(ps =~= ps.drop_last().push(ps.last()));
        ps.drop_last().lemma_flatten_push(ps.last());
        lemma_utf8_concat(ps.drop_last().flatten(), ps.last());
    }
}

/// The text of an entry: its id followed by each of its phrases.
pub open spec fn entry_text(e: (Seq<char>, Seq<Seq<char>>)) -> Seq<char> {
    e.0 + e.1.flatten()
}

proof fn lemma_entries_bytes(es: Seq<(Seq<char>, Seq<Seq<char>>)>)
    ensures
        entries_bytes(es) == utf8(es.map_values(|e: (Seq<char>, Seq<Seq<char>>)| entry_text(e)).flatten()),
    decreases es.len(),
{
    let f = |e: (Seq<char>, Seq<Seq<char>>)| entry_text(e);
    if es.len() == 0 {
        assert(es.map_values(f) =~= Seq::<Seq<char>>::empty());
        assert(es.map_values(f).flatten() =~= Seq::<char>::empty());
    } else {
        let d = es.drop_last();
        let e = es.last();
        lemma_entries_bytes(d);
        assert(es.map_values(f) =~= d.map_values(f).push(entry_text(e)));
        d.map_values(f).lemma_flatten_push(entry_text(e));
        lemma_utf8_concat(d.map_values(f).flatten(), entry_text(e));
        lemma_utf8_concat(e.0, e.1.flatten());
        lemma_phrases_bytes(e.1);
        assert(entries_bytes(es) =~= entries_bytes(d) + utf8(e.0) + phrases_bytes(e.1));
    }
}

/// What is hashed is the UTF-8 text of the language, `|`, and then, for each command in
/// order of id, its id followed by every one of its phrases in that language, with nothing
/// left out; the commands are those of the packs, each once, in an order sorted by id.
pub proof fn law_hash_message(packs: Seq<JCommandsList>, lang: Seq<char>)
    ensures
        hash_message(packs, lang) == utf8(
            lang + seq!['|'] + sort_entries(all_entries(packs, lang, packs.len())).map_values(
                |e: (Seq<char>, Seq<Seq<char>>)| entry_text(e),
            ).flatten(),
        ),
        sort_entries(all_entries(packs, lang, packs.len())).to_multiset() == all_entries(
            packs,
            lang,
            packs.len(),
        ).to_multiset(),
        entries_sorted(sort_entries(all_entries(packs, lang, packs.len()))),
{
    let es = sort_entries(all_entries(packs, lang, packs.len()));
    let body = es.map_values(|e: (Seq<char>, Seq<Seq<char>>)| entry_text(e)).flatten();
    lemma_entries_bytes(es);
    lemma_utf8_concat(lang + seq!['|'], body);
    lemma_utf8_concat(lang, seq!['|']);
    assert(utf8(seq!['|']) =~= seq![124u8]) by {
        assert(vstd::utf8::is_ascii_chars(seq!['|']));
        vstd::utf8::is_ascii_chars_encode_utf8(seq!['|']);
    }
    lemma_sort_multiset(all_entries(packs, lang, packs.len()));
    lemma_sort_sorted(all_entries(packs, lang, packs.len()));
}

/// The number a lowercase hexadecimal digit stands for.
pub open spec fn hex_value(c: char) -> int {
    if '0' <= c && c <= '9' {
        (c as int) - ('0' as int)
    } else {
        (c as int) - ('a' as int) + 10
    }
}

/// Each byte is written as two lowercase hexadecimal digits, the high one first, in the order
/// of the bytes: the digits at `2i` and `2i + 1` read back as byte `i`.
pub proof fn law_hex_lower(b: Seq<u8>)
    ensures
        hex_lower(b).len() == 2 * b.len(),
        forall|i: int| 0 <= i < hex_lower(b).len() ==> is_lower_hex(#[trigger] hex_lower(b)[i]),
        forall|i: int|
            0 <= i < b.len() ==> hex_value(hex_lower(b)[2 * i]) * 16 + hex_value(
                hex_lower(b)[2 * i + 1],
            ) == #[trigger] b[i] as int,
    decreases b.len(),
{
    lemma_hex_shape(b);
    if b.len() > 0 {
        law_hex_lower(b.drop_last());
        let r = hex_lower(b.drop_last());
        let h = hex_lower(b);
        let x = b.last();
        assert forall|d: int| 0 <= d < 16 implies hex_value(#[trigger] hex_digit(d)) == d by {
            if d < 8 {
                if d < 4 {
                    if d < 2 { if d == 0 {} else {} } else { if d == 2 {} else {} }
                } else {
                    if d < 6 { if d == 4 {} else {} } else { if d == 6 {} else {} }
                }
            } else {
                if d < 12 {
                    if d < 10 { if d == 8 {} else {} } else { if d == 10 {} else {} }
                } else {
                    if d < 14 { if d == 12 {} else {} } else { if d == 14 {} else {} }
                }
            }
        }
        assert forall|i: int| 0 <= i < b.len() implies hex_value(h[2 * i]) * 16 + hex_value(
            h[2 * i + 1],
        ) == #[trigger] b[i] as int by {
            if i < b.len() - 1 {
                assert(h[2 * i] == r[2 * i]);
                assert(h[2 * i + 1] == r[2 * i + 1]);
                assert(b.drop_last()[i] == b[i]);
            } else {
                assert(h[2 * i] == hex_digit((x / 16) as int));
                assert(h[2 * i + 1] == hex_digit((x % 16) as int));
            }
        }
    }
}

/// Ids are ordered as `str` orders them, by their UTF-8 bytes: `a` comes before `b` exactly
/// when `a` is a proper prefix of `b`, or at the first position where they differ the byte
/// of `a` is the smaller.
pub proof fn law_bytes_order(a: Seq<u8>, b: Seq<u8>)
    ensures
        bytes_lt(a, b) <==> ((a.len() < b.len() && a == b.take(a.len() as int)) || exists|k: int|
            0 <= k < a.len() && k < b.len() && a.take(k) == b.take(k) && #[trigger] a[k] < b[k]),
    decreases a.len(),
{
    if a.len() == 0 {
        assert(a =~= b.take(0));
    } else if b.len() == 0 {
    } else if a[0] != b[0] {
        assert(a.take(0) =~= b.take(0));
        if a[0] > b[0] {
            assert forall|k: int| 0 <= k < a.len() && k < b.len() && a.take(k) == b.take(k) implies !(
            #[trigger] a[k] < b[k]) by {
                if k > 0 {
                    assert(a.take(k)[0] == b.take(k)[0]);
                }
            }
            if a.len() < b.len() && a == b.take(a.len() as int) {
                assert(a[0] == b.take(a.len() as int)[0]);
            }
        }
    } else {
        let a1 = a.drop_first();
        let b1 = b.drop_first();
        law_bytes_order(a1, b1);
        if a.len() < b.len() && a == b.take(a.len() as int) {
            assert(a1 =~= b1.take(a1.len() as int));
        }
        if a1.len() < b1.len() && a1 == b1.take(a1.len() as int) {
            assert(a =~= seq![a[0]] + a1);
            assert(b.take(a.len() as int) =~= seq![b[0]] + b1.take(a1.len() as int));
        }
        if exists|k: int| 0 <= k < a1.len() && k < b1.len() && a1.take(k) == b1.take(k) && #[trigger] a1[k] < b1[k] {
            let k = choose|k: int| 0 <= k < a1.len() && k < b1.len() && a1.take(k) == b1.take(k) && #[trigger] a1[k] < b1[k];
            assert(a.take(k + 1) =~= seq![a[0]] + a1.take(k));
            assert(b.take(k + 1) =~= seq![b[0]] + b1.take(k));
            assert(a[k + 1] == a1[k]);
        }
        if exists|k: int| 0 <= k < a.len() && k < b.len() && a.take(k) == b.take(k) && #[trigger] a[k] < b[k] {
            let k = choose|k: int| 0 <= k < a.len() && k < b.len() && a.take(k) == b.take(k) && #[trigger] a[k] < b[k];
            assert(k > 0);
            assert(a1.take(k - 1) =~= a.take(k).drop_first());
            assert(b1.take(k - 1) =~= b.take(k).drop_first());
            assert(a1[k - 1] == a[k]);
        }
    }
}

} // verus!
