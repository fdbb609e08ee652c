use vstd::prelude::*;

use crate::models::{files_view, FileView, MatchType, Rom, RomView, ScannedFile};

verus! {

/// What became of a stored file that a re-scan no longer found.
#[derive(Clone, Copy, Debug, PartialEq, Eq, Structural)]
pub enum Disposition {
    /// Exactly one newly seen path has its hash: it was renamed there.
    Moved,
    /// No newly seen path, or more than one, has its hash.
    Gone,
}

/// How a file found on disk compares with its stored record.
#[derive(Clone, Copy, Debug, PartialEq, Eq, Structural)]
pub enum CheckStatus {
    /// Same hash; the record says it matched exactly.
    Exact,
    /// Same hash; the record says it matched only by hash.
    Partial,
    /// Same hash; the record says it matched nothing.
    Miss,
    /// The content changed under an unchanged path.
    Changed,
}

/// Exactly one path among the newly seen files has hash `h`.
pub open spec fn unique_candidate(h: Seq<char>, fresh: Seq<(String, String)>) -> bool {
    &&& exists|i: int| 0 <= i < fresh.len() && (#[trigger] fresh[i]).0@ == h
    &&& forall|i: int, j: int|
        0 <= i < fresh.len() && 0 <= j < fresh.len() && (#[trigger] fresh[i]).0@ == h
            && (#[trigger] fresh[j]).0@ == h ==> fresh[i].1@ == fresh[j].1@
}

/// Moved when exactly one newly seen path carries the hash, else gone.
pub open spec fn disposition_spec(h: Seq<char>, fresh: Seq<(String, String)>) -> Disposition {
    if unique_candidate(h, fresh) {
        Disposition::Moved
    } else {
        Disposition::Gone
    }
}

/// The first position of a record with path `p`.
pub open spec fn first_with_path(s: Seq<FileView>, p: Seq<char>, i: int) -> bool {
    0 <= i < s.len() && s[i].path == p && forall|j: int| 0 <= j < i ==> s[j].path != p
}

/// Decides, for a stored file that was not found again, whether it moved.
pub fn disposition(stale: &ScannedFile, fresh: &Vec<(String, String)>) -> (r: Disposition)
    ensures
        r == disposition_spec(stale.hash@, fresh@),
{
    let mut found: Option<usize> = None;
    let mut i: usize = 0;
    while i < fresh.len()
        invariant
            i <= fresh@.len(),
            match found {
                None => forall|j: int| 0 <= j < i ==> (#[trigger] fresh@[j]).0@ != stale.hash@,
                Some(k) => k < i && fresh@[k as int].0@ == stale.hash@ && forall|j: int|
                    0 <= j < i && (#[trigger] fresh@[j]).0@ == stale.hash@ ==> fresh@[j].1@
                        == fresh@[k as int].1@,
            },
        decreases fresh@.len() - i,
    {
        if fresh[i].0 == stale.hash {
            match found {
                None => {
                    found = Some(i);
                },
                Some(k) => {
                    if fresh[i].1 != fresh[k].1 {
                        assert(!unique_candidate(stale.hash@, fresh@)) by {
                            assert(fresh@[i as int].0@ == stale.hash@);
                            assert(fresh@[k as int].0@ == stale.hash@);
                        }
                        return Disposition::Gone;
                    }
                },
            }
        }
        i = i + 1;
    }
    match found {
        None => Disposition::Gone,
        Some(k) => {
            assert(unique_candidate(stale.hash@, fresh@)) by {
                assert(fresh@[k as int].0@ == stale.hash@);
            }
            Disposition::Moved
        },
    }
}

/// Decides, for every stored file that a re-scan did not find again, whether
/// it moved to a newly seen path (given as hash and path pairs) or is gone.
pub fn resolve_missing(stale: &Vec<ScannedFile>, fresh: &Vec<(String, String)>) -> (r: Vec<
    Disposition,
>)
    ensures
        r@.len() == stale@.len(),
        forall|i: int|
            0 <= i < stale@.len() ==> (#[trigger] r@[i]) == disposition_spec(
                stale@[i].hash@,
                fresh@,
            ),
{
    let mut out: Vec<Disposition> = Vec::new();
    let mut i: usize = 0;
    while i < stale.len()
        invariant
            i <= stale@.len(),
            out@.len() == i,
            forall|k: int|
                0 <= k < i ==> (#[trigger] out@[k]) == disposition_spec(stale@[k].hash@, fresh@),
        decreases stale@.len() - i,
    {
        out.push(disposition(&stale[i], fresh));
        i = i + 1;
    }
    out
}

/// Compares the hash computed now with a file's stored record.
pub fn check_file(hash: &str, stored: &ScannedFile) -> (r: CheckStatus)
    ensures
        hash@ != stored.hash@ ==> r == CheckStatus::Changed,
        hash@ == stored.hash@ ==> r == match stored.match_type {
            MatchType::Exact => CheckStatus::Exact,
            MatchType::Partial => CheckStatus::Partial,
            MatchType::Miss => CheckStatus::Miss,
        },
{
    let h = hash.to_owned();
    if h != stored.hash {
        return CheckStatus::Changed;
    }
    match stored.match_type {
        MatchType::Exact => CheckStatus::Exact,
        MatchType::Partial => CheckStatus::Partial,
        MatchType::Miss => CheckStatus::Miss,
    }
}

/// The stored records of a re-scan or check that the walk has not met yet.
pub struct StoredSet {
    files: Vec<ScannedFile>,
}

impl StoredSet {
    pub closed spec fn view_files(&self) -> Seq<FileView> {
        files_view(self.files@)
    }

    pub fn new() -> (r: Self)
        ensures
            r.view_files() == Seq::<FileView>::empty(),
    {
        let r = StoredSet { files: Vec::new() };
        assert(r.view_files() =~= Seq::<FileView>::empty());
        r
    }

    /// Adds the stored records of one more directory.
    pub fn add_stored(&mut self, files: Vec<ScannedFile>)
        ensures
            final(self).view_files() == old(self).view_files() + files_view(files@),
    {
        let ghost start = files_view(self.files@);
        let mut i: usize = 0;
        while i < files.len()
            invariant
                i <= files@.len(),
                files_view(self.files@) == start + files_view(files@).take(i as int),
            decreases files@.len() - i,
        {
            let ghost before = self.files@;
            self.files.push(files[i].clone());
            assert(files_view(self.files@) =~= files_view(before).push(files@[i as int]@));
            assert(files_view(files@).take(i + 1) =~= files_view(files@).take(i as int).push(
                files@[i as int]@,
            ));
            i = i + 1;
        }
        assert(files_view(files@).take(i as int) =~= files_view(files@));
    }

    /// Takes out the first stored record of a path the walk has met.
    pub fn take_stored(&mut self, path: &str) -> (r: Option<ScannedFile>)
        ensures
            match r {
                Some(f) => exists|i: int|
                    first_with_path(old(self).view_files(), path@, i) && f@ == old(
                        self,
                    ).view_files()[i] && final(self).view_files() == old(self).view_files().remove(
                        i,
                    ),
                None => final(self).view_files() == old(self).view_files() && forall|j: int|
                    0 <= j < old(self).view_files().len() ==> (#[trigger] old(
                        self,
                    ).view_files()[j]).path != path@,
            },
    {
        let p = path.to_owned();
        let ghost fs = files_view(self.files@);
        let mut i: usize = 0;
        while i < self.files.len()
            invariant
                i <= self.files@.len(),
                fs == files_view(self.files@),
                self.files == old(self).files,
                p@ == path@,
                forall|j: int| 0 <= j < i ==> (#[trigger] fs[j]).path != path@,
            decreases self.files@.len() - i,
        {
            assert(fs[i as int] == self.files@[i as int]@);
            assert(p@ == path@);
            let same = self.files[i].path == p;
            assert(same == (self.files@[i as int].path@ == path@));
            if same {
                let f = self.files.remove(i);
                assert(files_view(self.files@) =~= fs.remove(i as int));
                assert(first_with_path(fs, path@, i as int));
                return Some(f);
            }
            i = i + 1;
        }
        None
    }

    /// The stored records the walk did not meet.
    pub fn remaining(&self) -> (r: &Vec<ScannedFile>)
        ensures
            files_view(r@) == self.view_files(),
    {
        &self.files
    }
}

/// The matches found for one game during a walk: (rom name, file path) pairs.
pub struct GameStatus {
    pub name: String,
    pub exact_matches: Vec<(String, String)>,
    pub partial_matches: Vec<(String, String)>,
}

/// The (rom, file) pairs of a list, as a set.
pub open spec fn pair_set(v: Seq<(String, String)>) -> Set<(Seq<char>, Seq<char>)> {
    Set::new(|p: (Seq<char>, Seq<char>)| exists|i: int| 0 <= i < v.len() && (#[trigger] v[i]).0@ == p.0 && v[i].1@ == p.1)
}

/// A game's matches as plain values.
pub struct StatusView {
    pub name: Seq<char>,
    pub exact: Set<(Seq<char>, Seq<char>)>,
    pub partial: Set<(Seq<char>, Seq<char>)>,
}

impl View for GameStatus {
    type V = StatusView;

    open spec fn view(&self) -> StatusView {
        StatusView {
            name: self.name@,
            exact: pair_set(self.exact_matches@),
            partial: pair_set(self.partial_matches@),
        }
    }
}

/// A game's matches with one more (rom, file) pair.
pub open spec fn add_match(s: StatusView, rom: Seq<char>, file: Seq<char>, exact: bool) -> StatusView {
    if exact {
        StatusView { exact: s.exact.insert((rom, file)), ..s }
    } else {
        StatusView { partial: s.partial.insert((rom, file)), ..s }
    }
}

/// The position of the entry of game `name`, if any.
pub open spec fn find_game(v: Seq<StatusView>, name: Seq<char>) -> Option<int>
    decreases v.len(),
{
    if v.len() == 0 {
        None
    } else if v.last().name == name {
        Some(v.len() - 1)
    } else {
        find_game(v.drop_last(), name)
    }
}

/// The aggregate after one more match: the game's entry grows, or a new
/// entry for the game is appended.
pub open spec fn record_spec(
    v: Seq<StatusView>,
    game: Seq<char>,
    rom: Seq<char>,
    file: Seq<char>,
    exact: bool,
) -> Seq<StatusView> {
    match find_game(v, game) {
        Some(i) => v.update(i, add_match(v[i], rom, file, exact)),
        None => v.push(
            add_match(StatusView { name: game, exact: Set::empty(), partial: Set::empty() }, rom, file, exact),
        ),
    }
}

/// Per game, the roms matched during a walk and the files that matched them,
/// in the order the games were first met.
pub struct FoundGames {
    pub games: Vec<GameStatus>,
}

/// Per-game matches as plain values, in order.
pub open spec fn statuses_view(v: Seq<GameStatus>) -> Seq<StatusView> {
    v.map_values(|g: GameStatus| g@)
}

fn insert_pair(v: &mut Vec<(String, String)>, a: &String, b: &String)
    ensures
        pair_set(final(v)@) == pair_set(old(v)@).insert((a@, b@)),
{
    let ghost before = v@;
    let mut i: usize = 0;
    while i < v.len()
        invariant
            i <= v@.len(),
            v@ == before,
        decreases v@.len() - i,
    {
        if v[i].0 == *a && v[i].1 == *b {
            assert(pair_set(before).contains((a@, b@)));
            assert(pair_set(before).insert((a@, b@)) =~= pair_set(before));
            return;
        }
        i = i + 1;
    }
    v.push((a.clone(), b.clone()));
    assert(pair_set(v@) =~= pair_set(before).insert((a@, b@))) by {
        assert forall|p: (Seq<char>, Seq<char>)| pair_set(before).insert((a@, b@)).contains(p) implies #[trigger] pair_set(v@).contains(p) by {
            if p == (a@, b@) {
                assert(v@[before.len() as int].0@ == p.0);
            } else {
                let i = choose|i: int| 0 <= i < before.len() && (#[trigger] before[i]).0@ == p.0 && before[i].1@ == p.1;
                assert(v@[i] == before[i]);
            }
        }
        assert forall|p: (Seq<char>, Seq<char>)| #[trigger] pair_set(v@).contains(p) implies pair_set(before).insert((a@, b@)).contains(p) by {
            let i = choose|i: int| 0 <= i < v@.len() && (#[trigger] v@[i]).0@ == p.0 && v@[i].1@ == p.1;
            if i < before.len() {
                assert(v@[i] == before[i]);
            }
        }
    }
}

/// The (rom, file) pairs of `v` whose rom was also matched by another file
/// in `all`, in the order of `v`.
pub open spec fn dup_pairs(v: Seq<(String, String)>, all: Seq<(String, String)>) -> Seq<(Seq<char>, Seq<char>)>
    decreases v.len(),
{
    if v.len() == 0 {
        seq![]
    } else {
        let prev = dup_pairs(v.drop_last(), all);
        let p = v.last();
        if exists|j: int| 0 <= j < all.len() && (#[trigger] all[j]).0@ == p.0@ && all[j].1@ != p.1@ {
            prev.push((p.0@, p.1@))
        } else {
            prev
        }
    }
}

/// The exact matches of a game whose rom more than one file matched: each
/// such (rom, file) pair, in recording order.
pub fn duplicate_exact(status: &GameStatus) -> (r: Vec<(String, String)>)
    ensures
        r@.map_values(|p: (String, String)| (p.0@, p.1@)) == dup_pairs(
            status.exact_matches@,
            status.exact_matches@,
        ),
{
    let v = &status.exact_matches;
    let mut out: Vec<(String, String)> = Vec::new();
    let mut i: usize = 0;
    while i < v.len()
        invariant
            i <= v@.len(),
            out@.map_values(|p: (String, String)| (p.0@, p.1@)) == dup_pairs(v@.take(i as int), v@),
        decreases v@.len() - i,
    {
        assert(v@.take(i + 1).drop_last() =~= v@.take(i as int));
        assert(v@.take(i + 1).last() == v@[i as int]);
        let mut dup = false;
        let mut j: usize = 0;
        while j < v.len()
            invariant
                i < v@.len(),
                j <= v@.len(),
                dup == exists|k: int| 0 <= k < j && (#[trigger] v@[k]).0@ == v@[i as int].0@ && v@[k].1@ != v@[i as int].1@,
            decreases v@.len() - j,
        {
            if v[j].0 == v[i].0 && v[j].1 != v[i].1 {
                dup = true;
            }
            j = j + 1;
        }
        if dup {
            let ghost before = out@;
            out.push((v[i].0.clone(), v[i].1.clone()));
            assert(out@.map_values(|p: (String, String)| (p.0@, p.1@)) =~= before.map_values(
                |p: (String, String)| (p.0@, p.1@),
            ).push((v@[i as int].0@, v@[i as int].1@)));
        }
        i = i + 1;
    }
    assert(v@.take(i as int) =~= v@);
    out
}

impl FoundGames {
    pub open spec fn view_games(&self) -> Seq<StatusView> {
        statuses_view(self.games@)
    }

    pub fn new() -> (r: Self)
        ensures
            r.view_games() == Seq::<StatusView>::empty(),
    {
        let r = FoundGames { games: Vec::new() };
        assert(r.view_games() =~= Seq::<StatusView>::empty());
        r
    }

    /// Notes that `file` matched rom `rom` of game `game`, exactly or only by
    /// hash.
    pub fn record(&mut self, game: &String, rom: &String, file: &String, exact: bool)
        ensures
            final(self).view_games() == record_spec(old(self).view_games(), game@, rom@, file@, exact),
    {
        let ghost v = self.view_games();
        let mut i: usize = self.games.len();
        assert(v.take(i as int) =~= v);
        while i > 0
            invariant
                i <= self.games@.len(),
                v == self.view_games(),
                v == old(self).view_games(),
                find_game(v, game@) == find_game(v.take(i as int), game@),
            decreases i,
        {
            assert(v.take(i as int).drop_last() =~= v.take(i - 1));
            if self.games[i - 1].name == *game {
                let k = i - 1;
                assert(v[k as int].name == game@);
                assert(v.take(i as int).last() == v[k as int]);
                assert(find_game(v, game@) == Some(k as int));
                let mut st = self.games.remove(k);
                if exact {
                    insert_pair(&mut st.exact_matches, rom, file);
                } else {
                    insert_pair(&mut st.partial_matches, rom, file);
                }
                assert(st@ == add_match(v[k as int], rom@, file@, exact));
                self.games.insert(k, st);
                assert(self.view_games() =~= v.update(k as int, add_match(v[k as int], rom@, file@, exact)));
                assert(self.view_games() == record_spec(v, game@, rom@, file@, exact));
                return;
            }
            i = i - 1;
        }
        assert(v.take(0) =~= Seq::<StatusView>::empty());
        let mut st = GameStatus { name: game.clone(), exact_matches: Vec::new(), partial_matches: Vec::new() };
        assert(pair_set(st.exact_matches@) =~= Set::empty());
        assert(pair_set(st.partial_matches@) =~= Set::empty());
        if exact {
            insert_pair(&mut st.exact_matches, rom, file);
        } else {
            insert_pair(&mut st.partial_matches, rom, file);
        }
        let ghost before = self.games@;
        self.games.push(st);
        assert(self.view_games() =~= statuses_view(before).push(st@));
    }

    /// Notes the match a stored record describes; a record of a file that
    /// matched nothing changes nothing.
    pub fn update_found_file(&mut self, file_path: &String, stored: &ScannedFile)
        ensures
            match (stored.game_name, stored.rom_name) {
                (Some(g), Some(r)) => final(self).view_games() == record_spec(
                    old(self).view_games(),
                    g@,
                    r@,
                    file_path@,
                    stored.match_type == MatchType::Exact,
                ),
                _ => final(self).view_games() == old(self).view_games(),
            },
    {
        match (&stored.game_name, &stored.rom_name) {
            (Some(g), Some(r)) => {
                let exact = stored.match_type == MatchType::Exact;
                self.record(g, r, file_path, exact);
            },
            _ => {},
        }
    }
}

/// The aggregate after recording each (game, rom) pair for one file.
pub open spec fn record_all(
    v: Seq<StatusView>,
    pairs: Seq<(Seq<char>, Seq<char>)>,
    file: Seq<char>,
    exact: bool,
) -> Seq<StatusView>
    decreases pairs.len(),
{
    if pairs.len() == 0 {
        v
    } else {
        record_spec(
            record_all(v, pairs.drop_last(), file, exact),
            pairs.last().0,
            pairs.last().1,
            file,
            exact,
        )
    }
}

impl FoundGames {
    /// Notes every candidate of one file: its (game, rom) pairs, matched
    /// exactly or only by hash.
    pub fn record_pairs(&mut self, pairs: &Vec<(String, String)>, file: &String, exact: bool)
        ensures
            final(self).view_games() == record_all(
                old(self).view_games(),
                pairs@.map_values(|p: (String, String)| (p.0@, p.1@)),
                file@,
                exact,
            ),
    {
        let ghost start = self.view_games();
        let ghost pv = pairs@.map_values(|p: (String, String)| (p.0@, p.1@));
        let mut i: usize = 0;
        while i < pairs.len()
            invariant
                i <= pairs@.len(),
                pv == pairs@.map_values(|p: (String, String)| (p.0@, p.1@)),
                self.view_games() == record_all(start, pv.take(i as int), file@, exact),
            decreases pairs@.len() - i,
        {
            assert(pv.take(i + 1).drop_last() =~= pv.take(i as int));
            self.record(&pairs[i].0, &pairs[i].1, file, exact);
            i = i + 1;
        }
        assert(pv.take(i as int) =~= pv);
    }
}

/// What the report says of one game met during a walk.
pub struct GameReport {
    pub name: String,
    /// Every declared rom matched exactly.
    pub full: bool,
    /// Declared roms with an exact match.
    pub exact_count: usize,
    /// Declared roms with a match by hash only.
    pub partial_count: usize,
    /// Declared roms with no match at all, in declaration order.
    pub missing: Vec<String>,
}

/// Some file matched rom `rom`.
pub open spec fn has_rom(s: Set<(Seq<char>, Seq<char>)>, rom: Seq<char>) -> bool {
    exists|f: Seq<char>| s.contains((rom, f))
}

/// How many of the declared roms some file matched.
pub open spec fn count_with(s: Set<(Seq<char>, Seq<char>)>, roms: Seq<RomView>) -> nat
    decreases roms.len(),
{
    if roms.len() == 0 {
        0
    } else {
        count_with(s, roms.drop_last()) + if has_rom(s, roms.last().name) {
            1nat
        } else {
            0nat
        }
    }
}

/// The declared roms no file matched, in declaration order.
pub open spec fn missing_spec(st: StatusView, roms: Seq<RomView>) -> Seq<Seq<char>>
    decreases roms.len(),
{
    if roms.len() == 0 {
        seq![]
    } else {
        let prev = missing_spec(st, roms.drop_last());
        if has_rom(st.exact, roms.last().name) || has_rom(st.partial, roms.last().name) {
            prev
        } else {
            prev.push(roms.last().name)
        }
    }
}

/// A game is reported when it has an exact match, or when its exact and
/// partial matches together number its declared roms.
pub open spec fn reported_spec(st: StatusView, roms: Seq<RomView>) -> bool {
    count_with(st.exact, roms) > 0 || count_with(st.exact, roms) + count_with(st.partial, roms)
        == roms.len()
}

fn has_rom_exec(v: &Vec<(String, String)>, rom: &String) -> (r: bool)
    ensures
        r == has_rom(pair_set(v@), rom@),
{
    let mut i: usize = 0;
    while i < v.len()
        invariant
            i <= v@.len(),
            forall|j: int| 0 <= j < i ==> (#[trigger] v@[j]).0@ != rom@,
        decreases v@.len() - i,
    {
        if v[i].0 == *rom {
            assert(pair_set(v@).contains((rom@, v@[i as int].1@)));
            return true;
        }
        i = i + 1;
    }
    assert forall|f: Seq<char>| !pair_set(v@).contains((rom@, f)) by {
        if pair_set(v@).contains((rom@, f)) {
            let j = choose|j: int| 0 <= j < v@.len() && (#[trigger] v@[j]).0@ == rom@ && v@[j].1@ == f;
        }
    }
    false
}

/// The report line of a game, given the roms the catalog declares for it;
/// nothing when the game is not reported.
pub fn game_report(status: &GameStatus, declared: &Vec<Rom>) -> (r: Option<GameReport>)
    ensures
        r.is_some() == reported_spec(status@, crate::models::roms_view(declared@)),
        r.is_some() ==> ({
            let rep = r.unwrap();
            let roms = crate::models::roms_view(declared@);
            &&& rep.name@ == status.name@
            &&& rep.exact_count == count_with(status@.exact, roms)
            &&& rep.partial_count == count_with(status@.partial, roms)
            &&& rep.full == (count_with(status@.exact, roms) == roms.len())
            &&& rep.missing@.map_values(|s: String| s@) == missing_spec(status@, roms)
        }),
{
    let ghost roms = crate::models::roms_view(declared@);
    let mut exact_count: usize = 0;
    let mut partial_count: usize = 0;
    let mut missing: Vec<String> = Vec::new();
    let mut i: usize = 0;
    while i < declared.len()
        invariant
            i <= declared@.len(),
            roms == crate::models::roms_view(declared@),
            exact_count == count_with(status@.exact, roms.take(i as int)),
            partial_count == count_with(status@.partial, roms.take(i as int)),
            exact_count <= i,
            partial_count <= i,
            missing@.map_values(|s: String| s@) == missing_spec(status@, roms.take(i as int)),
        decreases declared@.len() - i,
    {
        assert(roms.take(i + 1).drop_last() =~= roms.take(i as int));
        let name = &declared[i].name;
        assert(roms[i as int].name == name@);
        let e = has_rom_exec(&status.exact_matches, name);
        let p = has_rom_exec(&status.partial_matches, name);
        if e {
            exact_count = exact_count + 1;
        }
        if p {
            partial_count = partial_count + 1;
        }
        if !e && !p {
            let ghost before = missing@;
            missing.push(name.clone());
            assert(missing@.map_values(|s: String| s@) =~= before.map_values(|s: String| s@).push(name@));
        }
        i = i + 1;
    }
    assert(roms.take(i as int) =~= roms);
    if exact_count > 0 || exact_count + partial_count == declared.len() {
        Some(GameReport {
            name: status.name.clone(),
            full: exact_count == declared.len(),
            exact_count,
            partial_count,
            missing,
        })
    } else {
        None
    }
}

} // verus!
