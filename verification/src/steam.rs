//! Installed Steam games and the cache that maps an executable to its game.
//!
//! The cache keeps each game's install directory beside the game. Entries are
//! ordered by descending length of the directory's text, so that the first
//! directory that holds an executable is the most specific one.

use vstd::prelude::*;
use vstd::utf8::encode_utf8;
use crate::path::{path_starts_with, components, components_prefix, native_style, joinable_dir, root_text, PathStyle};

verus! {

/// Identifying info for an installed Steam app.
#[derive(Debug, Clone, PartialEq, Eq)]
pub struct GameInfo {
    pub app_id: u32,
    pub name: String,
    /// The `installdir` folder name (e.g. `"GarrysMod"`).
    pub install_dir: String,
}

/// What a [`GameInfo`] holds, as plain values.
pub struct GameInfoView {
    pub app_id: u32,
    pub name: Seq<char>,
    pub install_dir: Seq<char>,
}

impl View for GameInfo {
    type V = GameInfoView;

    open spec fn view(&self) -> GameInfoView {
        GameInfoView { app_id: self.app_id, name: self.name@, install_dir: self.install_dir@ }
    }
}

impl GameInfo {
    /// A copy of this game's info.
    pub fn duplicate(&self) -> (r: GameInfo)
        ensures
            r@ == self@,
    {
        GameInfo { app_id: self.app_id, name: self.name.clone(), install_dir: self.install_dir.clone() }
    }
}

/// The game described by an app manifest: its name is the manifest's name
/// where there is one, else its install directory's name.
pub fn installed_game(app_id: u32, name: Option<String>, install_dir: String) -> (r: GameInfo)
    ensures
        r.app_id == app_id,
        r.install_dir@ == install_dir@,
        r.name@ == (match name {
            Some(n) => n@,
            None => install_dir@,
        }),
{
    let name = match name {
        Some(n) => n,
        None => install_dir.clone(),
    };
    GameInfo { app_id, name, install_dir }
}

/// An entry of the cache, as plain values: an install directory and its game.
pub type DirEntry = (Seq<char>, GameInfoView);

/// The entries of a vector, as plain values.
pub open spec fn entries_view(v: Seq<(String, GameInfo)>) -> Seq<DirEntry> {
    v.map_values(|e: (String, GameInfo)| (e.0@, e.1@))
}

/// The length in bytes of an entry's directory text.
pub open spec fn entry_len(e: DirEntry) -> usize {
    encode_utf8(e.0).len() as usize
}

/// Whether no entry comes after an entry with a shorter directory.
pub open spec fn longest_first(s: Seq<DirEntry>) -> bool {
    forall|i: int, j: int| 0 <= i < j < s.len() ==> entry_len(s[j]) <= entry_len(s[i])
}

/// The test "has a directory of `n` bytes".
pub open spec fn len_is(n: usize) -> spec_fn(DirEntry) -> bool {
    |e: DirEntry| entry_len(e) == n
}

/// The entries of `s` whose directory has `n` bytes, in their order in `s`.
pub open spec fn with_len(s: Seq<DirEntry>, n: usize) -> Seq<DirEntry> {
    s.filter(len_is(n))
}

/// Whether `output` is `input` sorted by descending directory length, entries
/// of equal length keeping their order (a stable sort).
pub open spec fn stable_longest_first(input: Seq<DirEntry>, output: Seq<DirEntry>) -> bool {
    &&& longest_first(output)
    &&& forall|n: usize| #[trigger] with_len(output, n) == with_len(input, n)
}

/// Law: a stable sort keeps the entries: an entry is in the output exactly
/// when it is in the input.
pub proof fn lemma_stable_sort_keeps_entries(input: Seq<DirEntry>, output: Seq<DirEntry>, e: DirEntry)
    requires
        stable_longest_first(input, output),
    ensures
        output.contains(e) <==> input.contains(e),
{
    let n = entry_len(e);
    let pred = len_is(n);
    assert(with_len(output, n) == with_len(input, n));
    if output.contains(e) {
        let i = choose|i: int| 0 <= i < output.len() && output[i] == e;
        output.lemma_filter_contains(pred, i);
        input.lemma_filter_contains_rev(pred, e);
    }
    if input.contains(e) {
        let i = choose|i: int| 0 <= i < input.len() && input[i] == e;
        input.lemma_filter_contains(pred, i);
        output.lemma_filter_contains_rev(pred, e);
    }
}

/// The game of the first entry whose directory holds `exe`, if any.
pub open spec fn lookup(style: PathStyle, entries: Seq<DirEntry>, exe: Seq<char>) -> Option<GameInfoView>
    decreases entries.len(),
{
    if entries.len() == 0 {
        None
    } else if path_starts_with(style, exe, entries[0].0) {
        Some(entries[0].1)
    } else {
        lookup(style, entries.drop_first(), exe)
    }
}

/// Maps absolute install directories to the games installed there. Entries are
/// kept sorted by descending path length so the first prefix match is the most
/// specific one (longest-prefix wins when directories nest). Paths are read in
/// one style, that of the platform unless another is asked for.
#[derive(Debug)]
pub struct GameCache {
    entries: Vec<(String, GameInfo)>,
    style: PathStyle,
}

impl View for GameCache {
    type V = Seq<DirEntry>;

    closed spec fn view(&self) -> Seq<DirEntry> {
        entries_view(self.entries@)
    }
}

proof fn lemma_filter_none(s: Seq<DirEntry>, n: usize)
    requires
        forall|i: int| 0 <= i < s.len() ==> entry_len(#[trigger] s[i]) != n,
    ensures
        with_len(s, n) == Seq::<DirEntry>::empty(),
    decreases s.len(),
{
    reveal(Seq::filter);
    if s.len() > 0 {
        let t = s.drop_last();
        assert forall|i: int| 0 <= i < t.len() implies entry_len(#[trigger] t[i]) != n by {
            assert(t[i] == s[i]);
        }
        lemma_filter_none(t, n);
        assert(entry_len(s[s.len() - 1]) != n);
    }
}

proof fn lemma_insert_keeps_stable(input: Seq<DirEntry>, out: Seq<DirEntry>, e: DirEntry, p: int)
    requires
        stable_longest_first(input, out),
        0 <= p <= out.len(),
        forall|q: int| 0 <= q < p ==> entry_len(e) <= entry_len(#[trigger] out[q]),
        p < out.len() ==> entry_len(out[p]) < entry_len(e),
    ensures
        stable_longest_first(input.push(e), out.insert(p, e)),
{
    let new = out.insert(p, e);
    assert forall|q: int| p <= q < out.len() implies entry_len(#[trigger] out[q]) < entry_len(e) by {
        if q > p {
            assert(entry_len(out[q]) <= entry_len(out[p]));
        }
    }
    assert forall|i: int, j: int| 0 <= i < j < new.len() implies entry_len(new[j]) <= entry_len(
        new[i],
    ) by {
        if j < p {
            assert(new[i] == out[i] && new[j] == out[j]);
        } else if j == p {
            assert(new[i] == out[i]);
        } else if i < p {
            assert(new[i] == out[i] && new[j] == out[j - 1]);
        } else if i == p {
            assert(new[j] == out[j - 1]);
        } else {
            assert(new[i] == out[i - 1] && new[j] == out[j - 1]);
        }
    }
    let a = out.take(p);
    let b = out.skip(p);
    assert(out =~= a + b);
    assert(new =~= a + seq![e] + b);
    assert forall|n: usize| #[trigger] with_len(new, n) == with_len(input.push(e), n) by {
        let pred = len_is(n);
        Seq::filter_distributes_over_add(a, b, pred);
        Seq::filter_distributes_over_add(a, seq![e], pred);
        Seq::filter_distributes_over_add(a + seq![e], b, pred);
        input.lemma_filter_push(e, pred);
        Seq::<DirEntry>::empty().lemma_filter_push(e, pred);
        assert(Seq::<DirEntry>::empty().push(e) =~= seq![e]);
        reveal(Seq::filter);
        assert(Seq::<DirEntry>::empty().filter(pred) =~= Seq::<DirEntry>::empty());
        assert(with_len(out, n) == with_len(input, n));
        if entry_len(e) == n {
            assert forall|i: int| 0 <= i < b.len() implies entry_len(#[trigger] b[i]) != n by {
                assert(b[i] == out[p + i]);
            }
            lemma_filter_none(b, n);
            assert(a.filter(pred) + seq![e].filter(pred) + b.filter(pred) =~= (a.filter(pred)
                + b.filter(pred)).push(e));
        } else {
            assert(a.filter(pred) + seq![e].filter(pred) + b.filter(pred) =~= a.filter(pred)
                + b.filter(pred));
        }
    }
}

/// Law: the first entry whose directory holds `exe` has the longest such
/// directory, when entries come longest first.
pub proof fn lemma_lookup_is_longest(style: PathStyle, entries: Seq<DirEntry>, exe: Seq<char>)
    requires
        longest_first(entries),
    ensures
        lookup(style, entries, exe) is None <==> (forall|i: int|
            0 <= i < entries.len() ==> !path_starts_with(style, exe, #[trigger] entries[i].0)),
        lookup(style, entries, exe) matches Some(g) ==> exists|i: int|
            0 <= i < entries.len() && #[trigger] entries[i].1 == g && path_starts_with(style, 
                exe,
                entries[i].0,
            ) && (forall|j: int|
                0 <= j < entries.len() && path_starts_with(style, exe, #[trigger] entries[j].0)
                    ==> entry_len(entries[j]) <= entry_len(entries[i])),
    decreases entries.len(),
{
    if entries.len() > 0 {
        let rest = entries.drop_first();
        assert forall|i: int, j: int| 0 <= i < j < rest.len() implies entry_len(rest[j]) <= entry_len(
            rest[i],
        ) by {
            assert(rest[i] == entries[i + 1] && rest[j] == entries[j + 1]);
        }
        lemma_lookup_is_longest(style, rest, exe);
        if path_starts_with(style, exe, entries[0].0) {
            assert forall|j: int|
                0 <= j < entries.len() && path_starts_with(style, exe, #[trigger] entries[j].0) implies entry_len(
                entries[j],
            ) <= entry_len(entries[0]) by {
                if j > 0 {
                    assert(entry_len(entries[j]) <= entry_len(entries[0]));
                }
            }
        } else {
            assert forall|i: int| 0 <= i < rest.len() implies rest[i] == entries[i + 1] by {}
            if lookup(style, rest, exe) is None {
                assert forall|i: int| 0 <= i < entries.len() implies !path_starts_with(style, 
                    exe,
                    #[trigger] entries[i].0,
                ) by {
                    if i > 0 {
                        assert(entries[i] == rest[i - 1]);
                    }
                }
            } else {
                let g = lookup(style, rest, exe)->0;
                let k = choose|k: int|
                    0 <= k < rest.len() && #[trigger] rest[k].1 == g && path_starts_with(style, 
                        exe,
                        rest[k].0,
                    ) && (forall|j: int|
                        0 <= j < rest.len() && path_starts_with(style, exe, #[trigger] rest[j].0)
                            ==> entry_len(rest[j]) <= entry_len(rest[k]));
                assert(entries[k + 1] == rest[k]);
                assert forall|j: int|
                    0 <= j < entries.len() && path_starts_with(style, exe, #[trigger] entries[j].0) implies entry_len(
                    entries[j],
                ) <= entry_len(entries[k + 1]) by {
                    assert(j > 0);
                    assert(entries[j] == rest[j - 1]);
                }
            }
        }
    }
}

/// Law: an executable anywhere below an entry's install directory (one for
/// which the join law of [`crate::path`] is stated) is found, and the
/// directory that wins is at least as long as that one.
pub proof fn lemma_exe_below_dir_is_found(style: PathStyle, entries: Seq<DirEntry>, i: int, rest: Seq<char>)
    requires
        longest_first(entries),
        0 <= i < entries.len(),
        joinable_dir(style, entries[i].0),
    ensures
        ({
            let exe = entries[i].0 + root_text(style) + rest;
            &&& lookup(style, entries, exe) is Some
            &&& exists|k: int|
                0 <= k < entries.len() && #[trigger] entries[k].1 == lookup(style, entries, exe)->0
                    && path_starts_with(style, exe, entries[k].0) && entry_len(entries[i])
                    <= entry_len(entries[k])
        }),
{
    let exe = entries[i].0 + root_text(style) + rest;
    crate::path::lemma_inside_starts_with(style, entries[i].0, rest);
    lemma_lookup_is_longest(style, entries, exe);
}

proof fn lemma_matching_member(style: PathStyle, entries: Seq<DirEntry>, e: DirEntry, exe: Seq<char>)
    requires
        longest_first(entries),
        entries.contains(e),
        path_starts_with(style, exe, e.0),
    ensures
        lookup(style, entries, exe) is Some,
        exists|i: int| 0 <= i < entries.len() && entries[i] == e,
{
    lemma_lookup_is_longest(style, entries, exe);
    let i = choose|i: int| 0 <= i < entries.len() && entries[i] == e;
    assert(path_starts_with(style, exe, entries[i].0));
}

/// Law: where no two directories have the same length, the order in which
/// the entries are given does not change which game an executable matches:
/// two sorted caches of the same entries answer alike.
pub proof fn lemma_lookup_order_independent(style: PathStyle, 
    in1: Seq<DirEntry>,
    out1: Seq<DirEntry>,
    in2: Seq<DirEntry>,
    out2: Seq<DirEntry>,
    exe: Seq<char>,
)
    requires
        stable_longest_first(in1, out1),
        stable_longest_first(in2, out2),
        forall|e: DirEntry| in1.contains(e) <==> in2.contains(e),
        forall|i: int, j: int|
            0 <= i < j < in1.len() ==> entry_len(#[trigger] in1[i]) != entry_len(#[trigger] in1[j]),
    ensures
        lookup(style, out1, exe) == lookup(style, out2, exe),
{
    lemma_lookup_is_longest(style, out1, exe);
    lemma_lookup_is_longest(style, out2, exe);
    assert forall|e: DirEntry| out1.contains(e) <==> out2.contains(e) by {
        lemma_stable_sort_keeps_entries(in1, out1, e);
        lemma_stable_sort_keeps_entries(in2, out2, e);
    }
    if lookup(style, out1, exe) is None {
        if lookup(style, out2, exe) is Some {
            let g2 = lookup(style, out2, exe)->0;
            let k2 = choose|k: int|
                0 <= k < out2.len() && #[trigger] out2[k].1 == g2 && path_starts_with(style, exe, out2[k].0)
                    && (forall|j: int|
                    0 <= j < out2.len() && path_starts_with(style, exe, #[trigger] out2[j].0) ==> entry_len(
                        out2[j],
                    ) <= entry_len(out2[k]));
            assert(out2.contains(out2[k2]));
            lemma_matching_member(style, out1, out2[k2], exe);
        }
    } else {
        let g1 = lookup(style, out1, exe)->0;
        let k1 = choose|k: int|
            0 <= k < out1.len() && #[trigger] out1[k].1 == g1 && path_starts_with(style, exe, out1[k].0) && (
            forall|j: int|
                0 <= j < out1.len() && path_starts_with(style, exe, #[trigger] out1[j].0) ==> entry_len(
                    out1[j],
                ) <= entry_len(out1[k]));
        let e1 = out1[k1];
        assert(out1.contains(e1));
        lemma_matching_member(style, out2, e1, exe);
        let g2 = lookup(style, out2, exe)->0;
        let k2 = choose|k: int|
            0 <= k < out2.len() && #[trigger] out2[k].1 == g2 && path_starts_with(style, exe, out2[k].0) && (
            forall|j: int|
                0 <= j < out2.len() && path_starts_with(style, exe, #[trigger] out2[j].0) ==> entry_len(
                    out2[j],
                ) <= entry_len(out2[k]));
        let e2 = out2[k2];
        assert(out2.contains(e2));
        lemma_matching_member(style, out1, e2, exe);
        let i1 = choose|i: int| 0 <= i < out2.len() && out2[i] == e1;
        let i2 = choose|i: int| 0 <= i < out1.len() && out1[i] == e2;
        assert(path_starts_with(style, exe, out2[i1].0));
        assert(path_starts_with(style, exe, out1[i2].0));
        assert(entry_len(e1) == entry_len(e2));
        lemma_stable_sort_keeps_entries(in1, out1, e1);
        lemma_stable_sort_keeps_entries(in1, out1, e2);
        let a = choose|i: int| 0 <= i < in1.len() && in1[i] == e1;
        let b = choose|i: int| 0 <= i < in1.len() && in1[i] == e2;
        if a != b {
            if a < b {
                assert(entry_len(in1[a]) != entry_len(in1[b]));
            } else {
                assert(entry_len(in1[b]) != entry_len(in1[a]));
            }
        }
        assert(e1 == e2);
    }
}

/// The first entry whose directory holds `exe` is where `lookup` answers from.
proof fn lemma_lookup_first(style: PathStyle, entries: Seq<DirEntry>, exe: Seq<char>)
    ensures
        lookup(style, entries, exe) is None ==> forall|j: int|
            0 <= j < entries.len() ==> !path_starts_with(style, exe, #[trigger] entries[j].0),
        lookup(style, entries, exe) matches Some(g) ==> exists|k: int|
            0 <= k < entries.len() && #[trigger] entries[k].1 == g && path_starts_with(style, exe, entries[k].0)
                && forall|j: int| 0 <= j < k ==> !path_starts_with(style, exe, #[trigger] entries[j].0),
    decreases entries.len(),
{
    if entries.len() > 0 {
        let rest = entries.drop_first();
        lemma_lookup_first(style, rest, exe);
        if !path_starts_with(style, exe, entries[0].0) {
            if lookup(style, rest, exe) is None {
                assert forall|j: int| 0 <= j < entries.len() implies !path_starts_with(style, 
                    exe,
                    #[trigger] entries[j].0,
                ) by {
                    if j > 0 {
                        assert(entries[j] == rest[j - 1]);
                    }
                }
            } else {
                let g = lookup(style, rest, exe)->0;
                let k = choose|k: int|
                    0 <= k < rest.len() && #[trigger] rest[k].1 == g && path_starts_with(style, exe, rest[k].0)
                        && forall|j: int| 0 <= j < k ==> !path_starts_with(style, exe, #[trigger] rest[j].0);
                assert(entries[k + 1] == rest[k]);
                assert forall|j: int| 0 <= j < k + 1 implies !path_starts_with(style, 
                    exe,
                    #[trigger] entries[j].0,
                ) by {
                    if j > 0 {
                        assert(entries[j] == rest[j - 1]);
                    }
                }
            }
        } else {
            assert(entries[0].1 == lookup(style, entries, exe)->0);
        }
    }
}

/// Looking up in a sequence with one more entry at its end.
proof fn lemma_lookup_push(style: PathStyle, s: Seq<DirEntry>, e: DirEntry, exe: Seq<char>)
    ensures
        lookup(style, s.push(e), exe) == match lookup(style, s, exe) {
            Some(g) => Some(g),
            None => if path_starts_with(style, exe, e.0) {
                Some(e.1)
            } else {
                None
            },
        },
    decreases s.len(),
{
    if s.len() == 0 {
        assert(s.push(e).drop_first() =~= Seq::<DirEntry>::empty());
        assert(s.push(e)[0] == e);
        assert(lookup(style, s.push(e).drop_first(), exe) is None);
    } else {
        assert(s.push(e).drop_first() =~= s.drop_first().push(e));
        assert(s.push(e)[0] == s[0]);
        lemma_lookup_push(style, s.drop_first(), e, exe);
    }
}

/// Looking up among the entries of one length answers from the first entry
/// of that length, in the sequence's order, whose directory holds `exe`.
proof fn lemma_lookup_with_len(style: PathStyle, s: Seq<DirEntry>, n: usize, exe: Seq<char>)
    ensures
        lookup(style, with_len(s, n), exe) is None ==> forall|j: int|
            0 <= j < s.len() && entry_len(#[trigger] s[j]) == n ==> !path_starts_with(style, exe, s[j].0),
        lookup(style, with_len(s, n), exe) matches Some(g) ==> exists|i: int|
            0 <= i < s.len() && #[trigger] s[i].1 == g && entry_len(s[i]) == n && path_starts_with(style, 
                exe,
                s[i].0,
            ) && forall|j: int|
                0 <= j < i && entry_len(#[trigger] s[j]) == n ==> !path_starts_with(style, exe, s[j].0),
    decreases s.len(),
{
    if s.len() > 0 {
        let t = s.drop_last();
        let e = s.last();
        lemma_lookup_with_len(style, t, n, exe);
        t.lemma_filter_push(e, len_is(n));
        assert(t.push(e) =~= s);
        if entry_len(e) == n {
            lemma_lookup_push(style, with_len(t, n), e, exe);
        }
        assert forall|j: int| 0 <= j < t.len() implies t[j] == s[j] by {}
        if lookup(style, with_len(s, n), exe) is None {
            assert forall|j: int|
                0 <= j < s.len() && entry_len(#[trigger] s[j]) == n implies !path_starts_with(style, 
                exe,
                s[j].0,
            ) by {
                if j < t.len() {
                    assert(t[j] == s[j]);
                }
            }
        } else {
            let g = lookup(style, with_len(s, n), exe)->0;
            if lookup(style, with_len(t, n), exe) is Some {
                let i = choose|i: int|
                    0 <= i < t.len() && #[trigger] t[i].1 == g && entry_len(t[i]) == n && path_starts_with(style, 
                        exe,
                        t[i].0,
                    ) && forall|j: int|
                        0 <= j < i && entry_len(#[trigger] t[j]) == n ==> !path_starts_with(style, exe, t[j].0);
                assert(s[i] == t[i]);
                assert forall|j: int|
                    0 <= j < i && entry_len(#[trigger] s[j]) == n implies !path_starts_with(style, exe, s[j].0) by {
                    assert(s[j] == t[j]);
                }
            } else {
                let i = s.len() - 1;
                assert(s[i] == e);
                assert forall|j: int|
                    0 <= j < i && entry_len(#[trigger] s[j]) == n implies !path_starts_with(style, exe, s[j].0) by {
                    assert(s[j] == t[j]);
                }
            }
        }
    }
}

/// Law: among the entries whose directories hold `exe`, the one that wins is
/// of the greatest length, and the first of that length in the order the
/// entries were given.
pub proof fn lemma_lookup_first_given_longest(style: PathStyle, input: Seq<DirEntry>, out: Seq<DirEntry>, exe: Seq<char>)
    requires
        stable_longest_first(input, out),
    ensures
        lookup(style, out, exe) matches Some(g) ==> exists|i: int|
            0 <= i < input.len() && #[trigger] input[i].1 == g && path_starts_with(style, exe, input[i].0)
                && (forall|j: int|
                0 <= j < input.len() && path_starts_with(style, exe, #[trigger] input[j].0) ==> entry_len(
                    input[j],
                ) <= entry_len(input[i])) && (forall|j: int|
                0 <= j < i && path_starts_with(style, exe, #[trigger] input[j].0) ==> entry_len(input[j])
                    < entry_len(input[i])),
{
    lemma_lookup_first(style, out, exe);
    if lookup(style, out, exe) is Some {
        let g = lookup(style, out, exe)->0;
        let k = choose|k: int|
            0 <= k < out.len() && #[trigger] out[k].1 == g && path_starts_with(style, exe, out[k].0) && forall|j: int|
                0 <= j < k ==> !path_starts_with(style, exe, #[trigger] out[j].0);
        let n = entry_len(out[k]);
        // the first match in `out` is the first match of its length in `out`
        lemma_lookup_with_len(style, out, n, exe);
        assert(lookup(style, with_len(out, n), exe) is Some);
        let i2 = choose|i: int|
            0 <= i < out.len() && #[trigger] out[i].1 == lookup(style, with_len(out, n), exe)->0 && entry_len(out[i])
                == n && path_starts_with(style, exe, out[i].0) && forall|j: int|
                0 <= j < i && entry_len(#[trigger] out[j]) == n ==> !path_starts_with(style, exe, out[j].0);
        assert(i2 == k);
        assert(with_len(out, n) == with_len(input, n));
        lemma_lookup_with_len(style, input, n, exe);
        let i = choose|i: int|
            0 <= i < input.len() && #[trigger] input[i].1 == g && entry_len(input[i]) == n && path_starts_with(style, 
                exe,
                input[i].0,
            ) && forall|j: int|
                0 <= j < i && entry_len(#[trigger] input[j]) == n ==> !path_starts_with(style, exe, input[j].0);
        assert forall|j: int|
            0 <= j < input.len() && path_starts_with(style, exe, #[trigger] input[j].0) implies entry_len(input[j])
            <= n by {
            assert(input.contains(input[j]));
            lemma_stable_sort_keeps_entries(input, out, input[j]);
            let q = choose|q: int| 0 <= q < out.len() && out[q] == input[j];
            assert(path_starts_with(style, exe, out[q].0));
            assert(q >= k);
            if q > k {
                assert(entry_len(out[q]) <= entry_len(out[k]));
            }
        }
        assert forall|j: int|
            0 <= j < i && path_starts_with(style, exe, #[trigger] input[j].0) implies entry_len(input[j]) < n by {
            assert(input.contains(input[j]));
            lemma_stable_sort_keeps_entries(input, out, input[j]);
            let q = choose|q: int| 0 <= q < out.len() && out[q] == input[j];
            assert(path_starts_with(style, exe, out[q].0));
            assert(q >= k);
            if q > k {
                assert(entry_len(out[q]) <= entry_len(out[k]));
            }
        }
    }
}

/// The game of the first executable in `exes` that some entry holds.
pub open spec fn first_running(style: PathStyle, entries: Seq<DirEntry>, exes: Seq<Seq<char>>) -> Option<GameInfoView>
    decreases exes.len(),
{
    if exes.len() == 0 {
        None
    } else {
        match lookup(style, entries, exes[0]) {
            Some(g) => Some(g),
            None => first_running(style, entries, exes.drop_first()),
        }
    }
}

/// Whether some entry's directory holds `exe`.
pub open spec fn held(style: PathStyle, entries: Seq<DirEntry>, exe: Seq<char>) -> bool {
    exists|i: int| 0 <= i < entries.len() && path_starts_with(style, exe, #[trigger] entries[i].0)
}

/// The test "lies in some entry's directory".
pub open spec fn held_by(style: PathStyle, entries: Seq<DirEntry>) -> spec_fn(Seq<char>) -> bool {
    |exe: Seq<char>| held(style, entries, exe)
}

/// Law: only the executables that lie in an install directory count. Taking
/// out every other executable, wherever it stands, leaves the running game
/// unchanged; and a game that is found is the game of an entry whose directory
/// holds one of the executables.
pub proof fn lemma_first_running_sees_only_games(style: PathStyle, entries: Seq<DirEntry>, exes: Seq<Seq<char>>)
    ensures
        first_running(style, entries, exes) == first_running(style, entries, exes.filter(held_by(style, entries))),
        first_running(style, entries, exes) matches Some(g) ==> exists|j: int, i: int|
            0 <= j < exes.len() && 0 <= i < entries.len() && #[trigger] entries[i].1 == g
                && path_starts_with(style, #[trigger] exes[j], entries[i].0),
    decreases exes.len(),
{
    if exes.len() > 0 {
        let x = exes[0];
        let rest = exes.drop_first();
        let pred = held_by(style, entries);
        lemma_first_running_sees_only_games(style, entries, rest);
        lemma_lookup_first(style, entries, x);
        assert(exes =~= seq![x] + rest);
        Seq::filter_distributes_over_add(seq![x], rest, pred);
        reveal(Seq::filter);
        assert(seq![x].drop_last() =~= Seq::<Seq<char>>::empty());
        let kept = exes.filter(pred);
        if held(style, entries, x) {
            assert(seq![x].filter(pred) =~= seq![x]);
            assert(kept =~= seq![x] + rest.filter(pred));
            assert(kept[0] == x);
            assert(kept.drop_first() =~= rest.filter(pred));
            assert(lookup(style, entries, x) is Some);
        } else {
            assert(seq![x].filter(pred) =~= Seq::<Seq<char>>::empty());
            assert(kept =~= rest.filter(pred));
            assert(lookup(style, entries, x) is None);
        }
        if first_running(style, entries, exes) is Some {
            if lookup(style, entries, x) is Some {
                let k = choose|k: int|
                    0 <= k < entries.len() && #[trigger] entries[k].1 == lookup(style, entries, x)->0
                        && path_starts_with(style, x, entries[k].0) && forall|j: int|
                        0 <= j < k ==> !path_starts_with(style, x, #[trigger] entries[j].0);
                assert(exes[0] == x);
            } else {
                let g = first_running(style, entries, rest)->0;
                let (j, i) = choose|j: int, i: int|
                    0 <= j < rest.len() && 0 <= i < entries.len() && #[trigger] entries[i].1 == g
                        && path_starts_with(style, #[trigger] rest[j], entries[i].0);
                assert(exes[j + 1] == rest[j]);
            }
        }
    }
}

/// Law: two lists of executables that hold the same executables lying in
/// install directories, in the same order, give the same running game, however
/// the other executables differ.
pub proof fn lemma_first_running_same_games(
    style: PathStyle,
    entries: Seq<DirEntry>,
    a: Seq<Seq<char>>,
    b: Seq<Seq<char>>,
)
    requires
        a.filter(held_by(style, entries)) == b.filter(held_by(style, entries)),
    ensures
        first_running(style, entries, a) == first_running(style, entries, b),
{
    lemma_first_running_sees_only_games(style, entries, a);
    lemma_first_running_sees_only_games(style, entries, b);
}

impl GameCache {
    /// The entries come longest first.
    #[verifier::type_invariant]
    closed spec fn wf(&self) -> bool {
        longest_first(entries_view(self.entries@))
    }

    /// The style in which the cache reads paths.
    pub closed spec fn path_style(&self) -> PathStyle {
        self.style
    }

    /// The style in which the cache reads paths.
    pub fn style(&self) -> (r: PathStyle)
        ensures
            r == self.path_style(),
    {
        self.style
    }

    /// Build a cache from explicit entries, reading paths in the style of the
    /// platform: the same entries, ordered by descending length of the
    /// directory's text, entries of equal length in their given order.
    pub fn from_entries(entries: Vec<(String, GameInfo)>) -> (r: GameCache)
        ensures
            stable_longest_first(entries_view(entries@), r@),
            r@.to_multiset() == entries_view(entries@).to_multiset(),
    {
        Self::from_entries_in(entries, native_style())
    }

    /// Build a cache from explicit entries, reading paths in `style`: the
    /// same entries, ordered by descending length of the directory's text,
    /// entries of equal length in their given order.
    pub fn from_entries_in(entries: Vec<(String, GameInfo)>, style: PathStyle) -> (r: GameCache)
        ensures
            stable_longest_first(entries_view(entries@), r@),
            r@.to_multiset() == entries_view(entries@).to_multiset(),
            r.path_style() == style,
    {
        let ghost input = entries_view(entries@);
        let mut rest = entries;
        let mut out: Vec<(String, GameInfo)> = Vec::new();
        let ghost mut k: int = 0;
        assert(input.take(0) =~= Seq::<DirEntry>::empty());
        assert(entries_view(out@) =~= Seq::<DirEntry>::empty());
        assert(input.skip(0) =~= input);
        while rest.len() > 0
            invariant
                0 <= k <= input.len(),
                entries_view(rest@) == input.skip(k),
                stable_longest_first(input.take(k), entries_view(out@)),
                entries_view(out@).to_multiset() == input.take(k).to_multiset(),
            decreases rest.len(),
        {
            let ghost old_rest = rest@;
            let e = rest.remove(0);
            let ghost ev = (e.0@, e.1@);
            assert(entries_view(old_rest)[0] == ev);
            assert(input.skip(k).len() > 0);
            assert(input.skip(k)[0] == input[k]);
            assert(ev == input[k]);
            let n = e.0.as_str().len();
            let mut p: usize = 0;
            while p < out.len() && out[p].0.as_str().len() >= n
                invariant
                    p <= out.len(),
                    n == entry_len(ev),
                    forall|q: int| 0 <= q < p ==> entry_len(ev) <= entry_len(#[trigger] entries_view(out@)[q]),
                decreases out.len() - p,
            {
                p = p + 1;
            }
            let ghost before = entries_view(out@);
            proof {
                lemma_insert_keeps_stable(input.take(k), before, ev, p as int);
                assert(input.take(k).push(ev) =~= input.take(k + 1));
            }
            out.insert(p, e);
            assert(entries_view(out@) =~= before.insert(p as int, ev));
            proof {
                vstd::seq_lib::to_multiset_insert(before, p as int, ev);
                input.take(k).to_multiset_ensures();
                k = k + 1;
            }
            assert forall|idx: int| 0 <= idx < entries_view(rest@).len() implies entries_view(rest@)[idx]
                == input.skip(k)[idx] by {
                assert(rest@[idx] == old_rest[idx + 1]);
                assert(entries_view(old_rest)[idx + 1] == input.skip(k - 1)[idx + 1]);
            }
            assert(entries_view(rest@) =~= input.skip(k));
        }
        assert(input.take(k) =~= input);
        GameCache { entries: out, style }
    }

    /// Whether the cache is empty (e.g. Steam not found or no games installed).
    /// Like every accessor, it also states that the entries come longest first.
    pub fn is_empty(&self) -> (r: bool)
        ensures
            r == (self@.len() == 0),
            longest_first(self@),
    {
        proof {
            use_type_invariant(self);
        }
        self.entries.len() == 0
    }

    /// The number of entries.
    pub fn len(&self) -> (r: usize)
        ensures
            r == self@.len(),
            longest_first(self@),
    {
        proof {
            use_type_invariant(self);
        }
        self.entries.len()
    }

    /// Return the game whose install directory is a prefix of `exe`, if any.
    /// Longest-prefix wins. This is the only thing we do with a process path.
    /// Paths are compared component by component, read in the cache's style,
    /// as `Path::starts_with` compares them (see [`crate::path`]).
    pub fn match_exe(&self, exe: &str) -> (r: Option<&GameInfo>)
        ensures
            longest_first(self@),
            match r {
                Some(g) => lookup(self.path_style(), self@, exe@) == Some(g@),
                None => lookup(self.path_style(), self@, exe@) is None,
            },
            r is None <==> (forall|i: int|
                0 <= i < self@.len() ==> !path_starts_with(self.path_style(), exe@, #[trigger] self@[i].0)),
            r matches Some(g) ==> exists|i: int|
                0 <= i < self@.len() && #[trigger] self@[i].1 == g@ && path_starts_with(self.path_style(), 
                    exe@,
                    self@[i].0,
                ) && (forall|j: int|
                    0 <= j < self@.len() && path_starts_with(self.path_style(), exe@, #[trigger] self@[j].0)
                        ==> entry_len(self@[j]) <= entry_len(self@[i])),
    {
        proof {
            use_type_invariant(self);
        }
        let exe_parts = components(self.style, exe);
        let mut i: usize = 0;
        let mut found = false;
        assert(self@.skip(0) =~= self@);
        while i < self.entries.len()
            invariant_except_break
                !found,
            invariant
                i <= self.entries.len(),
                self@.len() == self.entries.len(),
                lookup(self.path_style(), self@, exe@) == lookup(self.path_style(), self@.skip(i as int), exe@),
                exe_parts.deep_view() == crate::path::path_components(self.path_style(), exe@),
            ensures
                found ==> i < self.entries.len() && lookup(self.path_style(), self@, exe@) == Some(self@[i as int].1),
                !found ==> lookup(self.path_style(), self@, exe@) is None,
            decreases self.entries.len() - i,
        {
            let dir_parts = components(self.style, self.entries[i].0.as_str());
            let ghost s = self@.skip(i as int);
            assert(s[0] == self@[i as int]);
            assert(s.drop_first() =~= self@.skip(i + 1));
            if components_prefix(&dir_parts, &exe_parts) {
                found = true;
                break;
            }
            i = i + 1;
        }

        proof {
            lemma_lookup_is_longest(self.path_style(), self@, exe@);
        }
        if found {
            Some(&self.entries[i].1)
        } else {
            None
        }
    }

    /// The running game among the executables `exes` (in the order they are
    /// given): the game of the first executable that lies in an install
    /// directory, if any.
    pub fn first_running_game(&self, exes: &Vec<String>) -> (r: Option<GameInfo>)
        ensures
            longest_first(self@),
            match r {
                Some(g) => first_running(self.path_style(), self@, exes.deep_view()) == Some(g@),
                None => first_running(self.path_style(), self@, exes.deep_view()) is None,
            },
    {
        proof {
            use_type_invariant(self);
        }
        let mut i: usize = 0;
        assert(exes.deep_view().skip(0) =~= exes.deep_view());
        while i < exes.len()
            invariant
                i <= exes.len(),
                longest_first(self@),
                first_running(self.path_style(), self@, exes.deep_view()) == first_running(self.path_style(), 
                    self@,
                    exes.deep_view().skip(i as int),
                ),
            decreases exes.len() - i,
        {
            let ghost s = exes.deep_view().skip(i as int);
            assert(s[0] == exes[i as int]@);
            assert(s.drop_first() =~= exes.deep_view().skip(i + 1));
            match self.match_exe(exes[i].as_str()) {
                Some(g) => {
                    return Some(g.duplicate());
                },
                None => {},
            }
            i = i + 1;
        }
        None
    }
}

impl Default for GameCache {
    fn default() -> (r: GameCache)
        ensures
            r@ == Seq::<DirEntry>::empty(),
    {
        let r = GameCache { entries: Vec::new(), style: native_style() };
        assert(r@ =~= Seq::<DirEntry>::empty());
        r
    }
}

} // verus!
