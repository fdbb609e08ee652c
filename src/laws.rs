use vstd::prelude::*;

use crate::cache::{
    all_keys, clear_base, groups_result, lists_files, group_keys, hash_entries, hash_groups, key_valid, name_result, rom_at,
    select, store_all, Key,
};
use crate::matcher::{plan_records, plan_rename, tag_all, with_match, NamePair, ScanOptions};
use crate::session::{disposition_spec, Disposition};
use crate::models::{
    files_view, games_view, rom_hash, FileView, Game, GameView, HashType, MatchType, ScannedFile,
};

verus! {

/// The key `(g, r)` stands in one of the groups.
pub open spec fn in_groups(groups: Seq<(int, Seq<int>)>, g: int, r: int) -> bool {
    exists|i: int, j: int|
        0 <= i < groups.len() && 0 <= j < groups[i].1.len() && groups[i].0 == g && groups[i].1[j]
            == r
}

proof fn lemma_all_keys_complete(games: Seq<GameView>, k: Key)
    ensures
        all_keys(games).contains(k) <==> key_valid(games, k),
    decreases games.len(),
{
    crate::cache::lemma_all_keys_valid(games);
    if games.len() > 0 {
        let pre = games.drop_last();
        lemma_all_keys_complete(pre, k);
        let ks = all_keys(games);
        let pk = all_keys(pre);
        if key_valid(games, k) {
            if k.0 < games.len() - 1 {
                assert(key_valid(pre, k));
                let i = choose|i: int| 0 <= i < pk.len() && pk[i] == k;
                assert(ks[i] == k);
            } else {
                assert(ks[pk.len() + k.1] == k);
            }
        }
    }
}

proof fn lemma_hash_entries_member(games: Seq<GameView>, keys: Seq<Key>, t: HashType, h: Seq<char>, k: Key)
    ensures
        hash_entries(games, keys, t).contains((h, k)) <==> keys.contains(k) && rom_hash(
            rom_at(games, k),
            t,
        ) == Some(h),
    decreases keys.len(),
{
    if keys.len() > 0 {
        let pre = keys.drop_last();
        lemma_hash_entries_member(games, pre, t, h, k);
        let prev = hash_entries(games, pre, t);
        let cur = hash_entries(games, keys, t);
        if keys.contains(k) && rom_hash(rom_at(games, k), t) == Some(h) {
            let i = choose|i: int| 0 <= i < keys.len() && keys[i] == k;
            if i < keys.len() - 1 {
                assert(pre[i] == k);
                let j = choose|j: int| 0 <= j < prev.len() && prev[j] == (h, k);
                assert(cur[j] == (h, k));
            } else {
                assert(cur[cur.len() - 1] == (h, k));
            }
        }
        if cur.contains((h, k)) {
            let j = choose|j: int| 0 <= j < cur.len() && cur[j] == (h, k);
            if j < prev.len() {
                assert(prev[j] == (h, k));
                let i = choose|i: int| 0 <= i < pre.len() && pre[i] == k;
                assert(keys[i] == k);
            } else {
                assert(keys[keys.len() - 1] == k);
            }
        }
    }
}

proof fn lemma_select_member(entries: Seq<(Seq<char>, Key)>, h: Seq<char>, k: Key)
    ensures
        select(entries, h).contains(k) <==> entries.contains((h, k)),
    decreases entries.len(),
{
    if entries.len() > 0 {
        let pre = entries.drop_last();
        lemma_select_member(pre, h, k);
        let prev = select(pre, h);
        let cur = select(entries, h);
        if entries.contains((h, k)) {
            let i = choose|i: int| 0 <= i < entries.len() && entries[i] == (h, k);
            if i < entries.len() - 1 {
                assert(pre[i] == (h, k));
                let j = choose|j: int| 0 <= j < prev.len() && prev[j] == k;
                assert(cur[j] == k);
            } else {
                assert(cur[cur.len() - 1] == k);
            }
        }
        if cur.contains(k) {
            let j = choose|j: int| 0 <= j < cur.len() && cur[j] == k;
            if j < prev.len() {
                assert(prev[j] == k);
                let i = choose|i: int| 0 <= i < pre.len() && pre[i] == (h, k);
                assert(entries[i] == (h, k));
            } else {
                assert(entries[entries.len() - 1] == (h, k));
            }
        }
    }
}

proof fn lemma_group_keys_member(s: Seq<Key>, g: int, r: int)
    ensures
        in_groups(group_keys(s), g, r) <==> s.contains((g, r)),
    decreases s.len(),
{
    if s.len() > 0 {
        let pre = s.drop_last();
        lemma_group_keys_member(pre, g, r);
        let prev = group_keys(pre);
        let cur = group_keys(s);
        let k = s.last();
        let merged = prev.len() > 0 && prev.last().0 == k.0;
        if s.contains((g, r)) {
            let i = choose|i: int| 0 <= i < s.len() && s[i] == (g, r);
            if i < s.len() - 1 {
                assert(pre[i] == (g, r));
                let (a, b) = choose|a: int, b: int|
                    0 <= a < prev.len() && 0 <= b < prev[a].1.len() && prev[a].0 == g
                        && prev[a].1[b] == r;
                if merged && a == prev.len() - 1 {
                    assert(cur[a].1[b] == r);
                } else {
                    assert(cur[a] == prev[a]);
                }
                assert(in_groups(cur, g, r));
            } else {
                if merged {
                    let n = prev.len() - 1;
                    assert(cur[n].1[prev[n].1.len() as int] == r);
                    assert(in_groups(cur, g, r));
                } else {
                    assert(cur[prev.len() as int].1[0] == r);
                    assert(in_groups(cur, g, r));
                }
            }
        }
        if in_groups(cur, g, r) {
            let (a, b) = choose|a: int, b: int|
                0 <= a < cur.len() && 0 <= b < cur[a].1.len() && cur[a].0 == g && cur[a].1[b] == r;
            if merged && a == prev.len() - 1 {
                if b < prev[a].1.len() {
                    assert(prev[a].1[b] == r);
                    assert(in_groups(prev, g, r));
                    let i = choose|i: int| 0 <= i < pre.len() && pre[i] == (g, r);
                    assert(s[i] == (g, r));
                } else {
                    assert(s[s.len() - 1] == (g, r));
                }
            } else if a < prev.len() {
                assert(cur[a] == prev[a]);
                assert(in_groups(prev, g, r));
                let i = choose|i: int| 0 <= i < pre.len() && pre[i] == (g, r);
                assert(s[i] == (g, r));
            } else {
                assert(s[s.len() - 1] == (g, r));
            }
        }
    }
}

/// A hash search of type `t` for `h` over an index built for `t` finds exactly
/// the catalog roms whose hash of type `t` is `h`: the rom at `(g, r)` stands
/// in the result if and only if it exists and declares that hash.
pub proof fn lemma_hash_search_exact(games: Seq<GameView>, t: HashType, h: Seq<char>, g: int, r: int)
    ensures
        in_groups(hash_groups(games, t, h), g, r) <==> key_valid(games, (g, r)) && rom_hash(
            games[g].roms[r],
            t,
        ) == Some(h),
{
    let ks = all_keys(games);
    let es = hash_entries(games, ks, t);
    lemma_group_keys_member(select(es, h), g, r);
    lemma_select_member(es, h, (g, r));
    lemma_hash_entries_member(games, ks, t, h, (g, r));
    lemma_all_keys_complete(games, (g, r));
}

proof fn lemma_store_all_unique(x: Map<Seq<char>, FileView>, fs: Seq<FileView>, i: int)
    requires
        0 <= i < fs.len(),
        forall|a: int, b: int| 0 <= a < b < fs.len() ==> (#[trigger] fs[a]).path != (#[trigger] fs[b]).path,
    ensures
        store_all(x, fs).contains_key(fs[i].path),
        store_all(x, fs)[fs[i].path] == fs[i],
    decreases fs.len(),
{
    if i < fs.len() - 1 {
        let pre = fs.drop_last();
        assert forall|a: int, b: int| 0 <= a < b < pre.len() implies (#[trigger] pre[a]).path != (#[trigger] pre[b]).path by {
            assert(pre[a] == fs[a] && pre[b] == fs[b]);
        }
        assert(pre[i] == fs[i]);
        lemma_store_all_unique(x, pre, i);
        assert(fs[i].path != fs[fs.len() - 1].path);
    }
}

/// Loading what was saved from an index gives back its file table and its
/// catalog, hence the same name-search results and, once its hash index is
/// built for a type, the same hash-search results for that type.
pub proof fn lemma_save_load_round_trip(
    games: Seq<GameView>,
    files: Map<Seq<char>, FileView>,
    saved_games: Seq<Game>,
    saved_files: Seq<ScannedFile>,
)
    requires
        games_view(saved_games) == games,
        lists_files(saved_files, files),
    ensures
        store_all(Map::empty(), files_view(saved_files)) == files,
        forall|name: Seq<char>| name_result(games_view(saved_games), name) == name_result(games, name),
        forall|t: HashType, h: Seq<char>|
            groups_result(games_view(saved_games), hash_groups(games_view(saved_games), t, h))
                == groups_result(games, hash_groups(games, t, h)),
{
    let fv = files_view(saved_files);
    let loaded = store_all(Map::empty(), fv);
    assert forall|a: int, b: int| 0 <= a < b < fv.len() implies (#[trigger] fv[a]).path != (#[trigger] fv[b]).path by {
        assert(fv[a] == saved_files[a]@ && fv[b] == saved_files[b]@);
    }
    assert forall|p: Seq<char>| #[trigger] loaded.contains_key(p) == files.contains_key(p)
        && (files.contains_key(p) ==> loaded[p] == files[p]) by {
        lemma_store_all_at(Map::empty(), Map::empty(), fv, p);
        if files.contains_key(p) {
            let i = choose|i: int| 0 <= i < saved_files.len() && (#[trigger] saved_files[i]).path@ == p;
            assert(fv[i] == saved_files[i]@);
            lemma_store_all_unique(Map::empty(), fv, i);
        }
        if stores_path(fv, p) {
            let i = choose|i: int| 0 <= i < fv.len() && (#[trigger] fv[i]).path == p;
            assert(fv[i] == saved_files[i]@);
        }
    }
    assert(loaded =~= files);
}

/// Some record of the sequence has path `p`.
pub open spec fn stores_path(records: Seq<FileView>, p: Seq<char>) -> bool {
    exists|i: int| 0 <= i < records.len() && (#[trigger] records[i]).path == p
}

proof fn lemma_store_all_at(
    x: Map<Seq<char>, FileView>,
    y: Map<Seq<char>, FileView>,
    records: Seq<FileView>,
    p: Seq<char>,
)
    ensures
        stores_path(records, p) ==> store_all(x, records).contains_key(p) && store_all(
            y,
            records,
        ).contains_key(p) && store_all(x, records)[p] == store_all(y, records)[p],
        !stores_path(records, p) ==> store_all(x, records).contains_key(p) == x.contains_key(p)
            && (x.contains_key(p) ==> store_all(x, records)[p] == x[p]),
    decreases records.len(),
{
    if records.len() > 0 {
        let pre = records.drop_last();
        lemma_store_all_at(x, y, pre, p);
        if records.last().path != p {
            if stores_path(records, p) {
                let i = choose|i: int| 0 <= i < records.len() && (#[trigger] records[i]).path == p;
                assert(pre[i].path == p);
            }
            if stores_path(pre, p) {
                let i = choose|i: int| 0 <= i < pre.len() && (#[trigger] pre[i]).path == p;
                assert(records[i].path == p);
            }
        } else {
            assert(records[records.len() - 1].path == p);
        }
    }
}

/// Scanning a base path again with the same records leaves the same file
/// table as scanning it once: a scan clears the base path's records and then
/// stores each record of that base path in turn.
pub proof fn lemma_rescan_idempotent(m: Map<Seq<char>, FileView>, base: Seq<char>, records: Seq<FileView>)
    requires
        forall|i: int| 0 <= i < records.len() ==> (#[trigger] records[i]).base_path == base,
    ensures
        store_all(clear_base(store_all(clear_base(m, base), records), base), records) == store_all(
            clear_base(m, base),
            records,
        ),
{
    let y = clear_base(m, base);
    let t1 = store_all(y, records);
    let x = clear_base(t1, base);
    assert forall|p: Seq<char>| #[trigger] store_all(x, records).contains_key(p) == t1.contains_key(p)
        && (t1.contains_key(p) ==> store_all(x, records)[p] == t1[p]) by {
        lemma_store_all_at(x, y, records, p);
        lemma_store_all_at(y, y, records, p);
    }
    assert(store_all(x, records) =~= t1);
}

/// A stored file whose hash exactly one newly seen path carries has moved
/// there; once a second newly seen path carries that hash too, it is gone and
/// its record stays.
pub proof fn lemma_rename_detection(h: Seq<char>, fresh: Seq<(String, String)>, new_path: Seq<char>, i: int, j: int)
    ensures
        (exists|k: int| 0 <= k < fresh.len() && (#[trigger] fresh[k]).0@ == h) && (forall|k: int|
            0 <= k < fresh.len() && (#[trigger] fresh[k]).0@ == h ==> fresh[k].1@ == new_path)
            ==> disposition_spec(h, fresh) == Disposition::Moved,
        0 <= i < fresh.len() && 0 <= j < fresh.len() && fresh[i].0@ == h && fresh[j].0@ == h
            && fresh[i].1@ != fresh[j].1@ ==> disposition_spec(h, fresh) == Disposition::Gone,
{
}

/// With partial matches ignored once an exact one exists, a file that has an
/// exact candidate yields exact records only, one per exact candidate (or the
/// first alone in first-match mode), and is never renamed.
pub proof fn lemma_exact_precedence(t: FileView, ex: Seq<NamePair>, pa: Seq<NamePair>, o: ScanOptions, can_rename: bool)
    requires
        ex.len() > 0,
        o.ignore_partial,
    ensures
        forall|i: int|
            0 <= i < plan_records(t, ex, pa, o).len() ==> (#[trigger] plan_records(t, ex, pa, o)[i]).match_type
                == MatchType::Exact,
        plan_rename(ex, pa, o, can_rename).is_none(),
{
    let recs = plan_records(t, ex, pa, o);
    assert forall|i: int| 0 <= i < recs.len() implies (#[trigger] recs[i]).match_type == MatchType::Exact by {
        if !o.first_match {
            assert(recs[i] == with_match(t, MatchType::Exact, ex[i]));
        }
    }
}

/// Every exact candidate of a file gets its own record, so two games that
/// declare the same rom name and hash give two exact records; in first-match
/// mode only the first candidate is recorded.
pub proof fn lemma_one_record_per_exact_candidate(t: FileView, ex: Seq<NamePair>, pa: Seq<NamePair>, o: ScanOptions)
    requires
        ex.len() > 0,
    ensures
        o.first_match ==> plan_records(t, ex, pa, o) == seq![with_match(t, MatchType::Exact, ex[0])],
        !o.first_match ==> plan_records(t, ex, pa, o).len() >= ex.len() && forall|i: int|
            0 <= i < ex.len() ==> (#[trigger] plan_records(t, ex, pa, o)[i]) == with_match(
                t,
                MatchType::Exact,
                ex[i],
            ),
{
    if !o.first_match {
        let recs = plan_records(t, ex, pa, o);
        let exact_part = tag_all(t, MatchType::Exact, ex);
        assert forall|i: int| 0 <= i < ex.len() implies (#[trigger] recs[i]) == with_match(
            t,
            MatchType::Exact,
            ex[i],
        ) by {
            assert(recs[i] == exact_part[i]);
        }
    }
}

} // verus!
