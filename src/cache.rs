use vstd::prelude::*;

use crate::session::{disposition, disposition_spec, Disposition};
use crate::models::{
    games_view, opt_view, roms_view, rom_hash, DataFile, FileView, Game, GameView, HashType, Rom,
    RomView, ScannedFile,
};

verus! {

/// A stable key of one rom inside the catalog arena: the game's position and
/// the rom's position within that game.
#[derive(Clone, Copy, Debug, PartialEq, Eq, Structural)]
pub struct RomAndGame {
    pub game: usize,
    pub rom: usize,
}

/// Errors of catalog lookups.
#[derive(Clone, Copy, Debug, PartialEq, Eq, Structural)]
pub enum CatalogError {
    /// A hash search asked for another algorithm than the one the index was built for.
    TypeMismatch { expected: HashType, got: HashType },
    /// A rom search was given no predicate at all.
    InvalidQuery,
}

/// The in-memory reference index: the catalog as an arena of games, the
/// table of scanned files keyed by path, and the lookup structures derived
/// from the catalog.
pub struct Cache {
    persistent_data: Vec<Game>,
    scanned_files: Vec<ScannedFile>,
    files_model: Ghost<Map<Seq<char>, FileView>>,
    roms_and_games: Vec<RomAndGame>,
    games_by_name: Vec<(String, usize)>,
    hash_type: HashType,
    roms_by_hash: Vec<(String, RomAndGame)>,
}

pub type Key = (int, int);

/// A key as a pair of positions.
pub open spec fn key_view(k: RomAndGame) -> Key {
    (k.game as int, k.rom as int)
}

/// A key list as pairs of positions.
pub open spec fn keys_view(ks: Seq<RomAndGame>) -> Seq<Key> {
    ks.map_values(|k: RomAndGame| key_view(k))
}

/// The hash index as (hash, key) pairs.
pub open spec fn entries_view(es: Seq<(String, RomAndGame)>) -> Seq<(Seq<char>, Key)> {
    es.map_values(|e: (String, RomAndGame)| (e.0@, key_view(e.1)))
}

/// Every rom key of the catalog, game by game and rom by rom.
pub open spec fn all_keys(games: Seq<GameView>) -> Seq<Key>
    decreases games.len(),
{
    if games.len() == 0 {
        seq![]
    } else {
        all_keys(games.drop_last()) + Seq::new(
            games.last().roms.len(),
            |r: int| (games.len() - 1, r),
        )
    }
}

/// The key names an existing rom of the catalog.
pub open spec fn key_valid(games: Seq<GameView>, k: Key) -> bool {
    0 <= k.0 < games.len() && 0 <= k.1 < games[k.0].roms.len()
}

/// The rom a key names.
pub open spec fn rom_at(games: Seq<GameView>, k: Key) -> RomView {
    games[k.0].roms[k.1]
}

/// The hash index: for each key (in order) whose rom declares a hash of
/// type `t`, that hash paired with the key.
pub open spec fn hash_entries(games: Seq<GameView>, keys: Seq<Key>, t: HashType) -> Seq<
    (Seq<char>, Key),
>
    decreases keys.len(),
{
    if keys.len() == 0 {
        seq![]
    } else {
        let prev = hash_entries(games, keys.drop_last(), t);
        match rom_hash(rom_at(games, keys.last()), t) {
            Some(h) => prev.push((h, keys.last())),
            None => prev,
        }
    }
}

/// The keys of the index entries whose hash is `h`, in order.
pub open spec fn select(entries: Seq<(Seq<char>, Key)>, h: Seq<char>) -> Seq<Key>
    decreases entries.len(),
{
    if entries.len() == 0 {
        seq![]
    } else {
        let prev = select(entries.drop_last(), h);
        if entries.last().0 == h {
            prev.push(entries.last().1)
        } else {
            prev
        }
    }
}

/// Groups consecutive keys of one game: each group is a game position and the
/// rom positions that follow it.
pub open spec fn group_keys(s: Seq<Key>) -> Seq<(int, Seq<int>)>
    decreases s.len(),
{
    if s.len() == 0 {
        seq![]
    } else {
        let prev = group_keys(s.drop_last());
        let k = s.last();
        if prev.len() > 0 && prev.last().0 == k.0 {
            prev.update(prev.len() - 1, (k.0, prev.last().1.push(k.1)))
        } else {
            prev.push((k.0, seq![k.1]))
        }
    }
}

/// The groups a hash search for `h` of type `t` yields over the catalog.
pub open spec fn hash_groups(games: Seq<GameView>, t: HashType, h: Seq<char>) -> Seq<
    (int, Seq<int>),
> {
    group_keys(select(hash_entries(games, all_keys(games), t), h))
}

/// What a hash search returns: each group as the game and its matching roms.
pub open spec fn groups_result(games: Seq<GameView>, groups: Seq<(int, Seq<int>)>) -> Seq<
    (GameView, Seq<RomView>),
> {
    groups.map_values(
        |grp: (int, Seq<int>)| (games[grp.0], grp.1.map_values(|r: int| games[grp.0].roms[r])),
    )
}

/// A search result as games and their roms.
pub open spec fn result_view(r: Seq<(Game, Vec<Rom>)>) -> Seq<(GameView, Seq<RomView>)> {
    r.map_values(|p: (Game, Vec<Rom>)| (p.0@, roms_view(p.1@)))
}

/// The position of the last game called `name`: a later game of the same name
/// overrides an earlier one.
pub open spec fn last_named(games: Seq<GameView>, name: Seq<char>) -> Option<int>
    decreases games.len(),
{
    if games.len() == 0 {
        None
    } else if games.last().name == name {
        Some(games.len() - 1)
    } else {
        last_named(games.drop_last(), name)
    }
}

/// What a name search returns: the overriding game of that name, if any.
pub open spec fn name_result(games: Seq<GameView>, name: Seq<char>) -> Seq<GameView> {
    match last_named(games, name) {
        Some(i) => seq![games[i]],
        None => seq![],
    }
}

/// The file table without the records of one base path.
pub open spec fn clear_base(m: Map<Seq<char>, FileView>, base: Seq<char>) -> Map<
    Seq<char>,
    FileView,
> {
    Map::new(|p: Seq<char>| m.contains_key(p) && m[p].base_path != base, |p: Seq<char>| m[p])
}

/// The file table after storing each record in turn, a later one replacing an
/// earlier one of the same path.
pub open spec fn store_all(m: Map<Seq<char>, FileView>, fs: Seq<FileView>) -> Map<
    Seq<char>,
    FileView,
>
    decreases fs.len(),
{
    if fs.len() == 0 {
        m
    } else {
        store_all(m, fs.drop_last()).insert(fs.last().path, fs.last())
    }
}

/// The name map lists each game name once, with the position of the game
/// of that name that overrides the others.
pub open spec fn names_wf(names: Seq<(String, usize)>, games: Seq<GameView>) -> bool {
    &&& forall|a: int, b: int|
        0 <= a < b < names.len() ==> (#[trigger] names[a]).0@ != (#[trigger] names[b]).0@
    &&& forall|k: int|
        0 <= k < names.len() ==> last_named(games, (#[trigger] names[k]).0@) == Some(
            names[k].1 as int,
        )
    &&& forall|n: Seq<char>|
        #[trigger] last_named(games, n).is_some() ==> exists|k: int|
            0 <= k < names.len() && (#[trigger] names[k]).0@ == n
}

pub proof fn lemma_last_named_bounds(games: Seq<GameView>, n: Seq<char>)
    ensures
        match last_named(games, n) {
            Some(i) => 0 <= i < games.len() && games[i].name == n,
            None => true,
        },
    decreases games.len(),
{
    if games.len() > 0 && games.last().name != n {
        lemma_last_named_bounds(games.drop_last(), n);
    }
}

impl Cache {
    /// The catalog, game by game.
    pub closed spec fn games(&self) -> Seq<GameView> {
        games_view(self.persistent_data@)
    }

    /// The scanned-file table, keyed by path.
    pub closed spec fn files(&self) -> Map<Seq<char>, FileView> {
        self.files_model@
    }

    /// The algorithm the hash index is built for.
    pub closed spec fn index_type(&self) -> HashType {
        self.hash_type
    }

    pub closed spec fn files_wf(&self) -> bool {
        let fs = self.scanned_files@;
        let m = self.files_model@;
        &&& forall|i: int, j: int|
            0 <= i < j < fs.len() ==> (#[trigger] fs[i]).path@ != (#[trigger] fs[j]).path@
        &&& forall|i: int|
            0 <= i < fs.len() ==> m.contains_key((#[trigger] fs[i]).path@) && m[fs[i].path@]
                == fs[i]@
        &&& forall|p: Seq<char>|
            m.contains_key(p) ==> exists|i: int| 0 <= i < fs.len() && (#[trigger] fs[i]).path@ == p
    }

    pub closed spec fn keys_wf(&self) -> bool {
        keys_view(self.roms_and_games@) == all_keys(self.games()) && names_wf(
            self.games_by_name@,
            self.games(),
        )
    }

    pub closed spec fn index_wf(&self) -> bool {
        &&& self.keys_wf()
        &&& entries_view(self.roms_by_hash@) == hash_entries(
            self.games(),
            all_keys(self.games()),
            self.hash_type,
        )
    }

    /// The index is consistent with its catalog and file table.
    pub closed spec fn wf(&self) -> bool {
        self.files_wf() && self.index_wf()
    }
}

/// Every key of the catalog's key list names an existing rom.
pub proof fn lemma_all_keys_valid(games: Seq<GameView>)
    ensures
        forall|i: int|
            0 <= i < all_keys(games).len() ==> key_valid(games, #[trigger] all_keys(games)[i]),
    decreases games.len(),
{
    if games.len() > 0 {
        let pre = games.drop_last();
        lemma_all_keys_valid(pre);
        let ks = all_keys(games);
        let pk = all_keys(pre);
        assert forall|i: int| 0 <= i < ks.len() implies key_valid(games, #[trigger] ks[i]) by {
            if i < pk.len() {
                assert(ks[i] == pk[i]);
                assert(key_valid(pre, pk[i]));
                assert(games[pk[i].0] == pre[pk[i].0]);
            }
        }
    }
}

/// The hash a rom declares for the given algorithm.
fn rom_hash_of(rom: &Rom, t: HashType) -> (r: Option<String>)
    ensures
        opt_view(r) == rom_hash(rom@, t),
{
    match t {
        HashType::Crc => crate::models::clone_opt_string(&rom.crc),
        HashType::Md5 => crate::models::clone_opt_string(&rom.md5),
        HashType::Sha1 => crate::models::clone_opt_string(&rom.sha1),
    }
}

impl Cache {
    /// An empty index, set up for SHA-1 hash searches.
    pub fn new() -> (r: Self)
        ensures
            r.wf(),
            r.games() == Seq::<GameView>::empty(),
            r.files() == Map::<Seq<char>, FileView>::empty(),
            r.index_type() == HashType::Sha1,
    {
        let r = Cache {
            persistent_data: Vec::new(),
            scanned_files: Vec::new(),
            files_model: Ghost(Map::empty()),
            roms_and_games: Vec::new(),
            games_by_name: Vec::new(),
            hash_type: HashType::Sha1,
            roms_by_hash: Vec::new(),
        };
        assert(keys_view(r.roms_and_games@) =~= all_keys(r.games()));
        assert(entries_view(r.roms_by_hash@) =~= hash_entries(
            r.games(),
            all_keys(r.games()),
            r.hash_type,
        ));
        r
    }

    /// Rebuilds the key list and the hash index (for the current algorithm)
    /// from the catalog.
    fn rebuild_cache_files(&mut self)
        requires
            old(self).files_wf(),
        ensures
            final(self).wf(),
            final(self).games() == old(self).games(),
            final(self).files() == old(self).files(),
            final(self).index_type() == old(self).index_type(),
    {
        let ghost gs = self.games();
        let mut keys: Vec<RomAndGame> = Vec::new();
        let mut g: usize = 0;
        while g < self.persistent_data.len()
            invariant
                g <= self.persistent_data@.len(),
                gs == self.games(),
                keys_view(keys@) == all_keys(gs.take(g as int)),
            decreases self.persistent_data@.len() - g,
        {
            let n = self.persistent_data[g].roms.len();
            let mut r: usize = 0;
            while r < n
                invariant
                    g < self.persistent_data@.len(),
                    gs == self.games(),
                    n == gs[g as int].roms.len(),
                    r <= n,
                    keys_view(keys@) == all_keys(gs.take(g as int)) + Seq::new(
                        r as nat,
                        |x: int| (g as int, x),
                    ),
                decreases n - r,
            {
                let ghost before = keys@;
                keys.push(RomAndGame { game: g, rom: r });
                assert(keys_view(keys@) =~= keys_view(before).push((g as int, r as int)));
                assert(keys_view(keys@) =~= all_keys(gs.take(g as int)) + Seq::new(
                    (r + 1) as nat,
                    |x: int| (g as int, x),
                ));
                r = r + 1;
            }
            assert(gs.take(g + 1).drop_last() =~= gs.take(g as int));
            assert(all_keys(gs.take(g + 1)) =~= all_keys(gs.take(g as int)) + Seq::new(
                n as nat,
                |x: int| (g as int, x),
            ));
            g = g + 1;
        }
        assert(gs.take(g as int) =~= gs);
        let names = self.build_name_map();
        self.roms_and_games = keys;
        self.games_by_name = names;
        let t = self.hash_type;
        self.build_hash_index(t);
    }

    /// Builds the name map: each game name once, with the position of the
    /// last game of that name.
    fn build_name_map(&self) -> (r: Vec<(String, usize)>)
        ensures
            names_wf(r@, self.games()),
    {
        let ghost gs = self.games();
        let mut names: Vec<(String, usize)> = Vec::new();
        let mut g: usize = 0;
        while g < self.persistent_data.len()
            invariant
                g <= gs.len(),
                gs == self.games(),
                names_wf(names@, gs.take(g as int)),
            decreases gs.len() - g,
        {
            let ghost pre = gs.take(g as int);
            let ghost cur = gs.take(g + 1);
            let ghost before = names@;
            assert(cur.drop_last() =~= pre);
            assert(cur.last() == gs[g as int]);
            let name = &self.persistent_data[g].name;
            assert(gs[g as int].name == name@);
            let mut k: usize = 0;
            let mut found = false;
            while k < names.len() && !found
                invariant
                    k <= names@.len(),
                    names@ == before,
                    !found ==> forall|j: int| 0 <= j < k ==> (#[trigger] names@[j]).0@ != name@,
                    found ==> k < names@.len() && names@[k as int].0@ == name@,
                decreases names@.len() - k + (if found { 0int } else { 1int }),
            {
                if names[k].0 == *name {
                    found = true;
                } else {
                    k = k + 1;
                }
            }
            if found {
                names.set(k, (name.clone(), g));
            } else {
                names.push((name.clone(), g));
            }
            proof {
                let nv = names@;
                assert forall|n: Seq<char>| #[trigger] last_named(cur, n) == if n == name@ {
                    Some(g as int)
                } else {
                    last_named(pre, n)
                } by {}
                assert forall|a: int, b: int| 0 <= a < b < nv.len() implies (#[trigger] nv[a]).0@
                    != (#[trigger] nv[b]).0@ by {
                    if b == before.len() {
                        assert(nv[a] == before[a]);
                    } else if found && a == k {
                        assert(nv[b] == before[b]);
                    } else if found && b == k {
                        assert(nv[a] == before[a]);
                    } else {
                        assert(nv[a] == before[a] && nv[b] == before[b]);
                    }
                }
                assert forall|j: int| 0 <= j < nv.len() implies last_named(cur, (#[trigger] nv[j]).0@)
                    == Some(nv[j].1 as int) by {
                    if (found && j == k) || j == before.len() {
                    } else {
                        assert(nv[j] == before[j]);
                        assert(nv[j].0@ != name@);
                    }
                }
                assert forall|n: Seq<char>| #[trigger] last_named(cur, n).is_some() implies exists|j: int|
                    0 <= j < nv.len() && (#[trigger] nv[j]).0@ == n by {
                    if n == name@ {
                        if found {
                            assert(nv[k as int].0@ == n);
                        } else {
                            assert(nv[before.len() as int].0@ == n);
                        }
                    } else {
                        assert(last_named(pre, n).is_some());
                        let j = choose|j: int| 0 <= j < before.len() && (#[trigger] before[j]).0@ == n;
                        assert(nv[j] == before[j]);
                    }
                }
            }
            g = g + 1;
        }
        assert(gs.take(g as int) =~= gs);
        names
    }

    /// Adds the games of an imported catalog after the present ones and
    /// rebuilds the lookup structures. Nothing is deduplicated: a later game
    /// overrides an earlier one of the same name in name searches.
    pub fn merge_data(&mut self, data: &DataFile)
        requires
            old(self).wf(),
        ensures
            final(self).wf(),
            final(self).games() == old(self).games() + games_view(data.games@),
            final(self).files() == old(self).files(),
            final(self).index_type() == old(self).index_type(),
    {
        let ghost start = self.games();
        let mut i: usize = 0;
        while i < data.games.len()
            invariant
                i <= data.games@.len(),
                self.files_wf(),
                self.files() == old(self).files(),
                self.index_type() == old(self).index_type(),
                self.games() == start + games_view(data.games@).take(i as int),
            decreases data.games@.len() - i,
        {
            let ghost before = self.persistent_data@;
            let g = data.games[i].clone();
            self.persistent_data.push(g);
            assert(games_view(self.persistent_data@) =~= games_view(before).push(
                data.games@[i as int]@,
            ));
            assert(games_view(data.games@).take(i + 1) =~= games_view(data.games@).take(
                i as int,
            ).push(data.games@[i as int]@));
            assert(self.games() =~= start + games_view(data.games@).take(i + 1));
            i = i + 1;
        }
        assert(games_view(data.games@).take(i as int) =~= games_view(data.games@));
        self.rebuild_cache_files();
    }

    /// Rebuilds the hash index for exactly one algorithm, discarding the index
    /// of the previous one.
    pub fn build_hash_index(&mut self, hash_type: HashType)
        requires
            old(self).files_wf(),
            old(self).keys_wf(),
        ensures
            final(self).wf(),
            final(self).games() == old(self).games(),
            final(self).files() == old(self).files(),
            final(self).index_type() == hash_type,
    {
        let ghost gs = self.games();
        let ghost ks = all_keys(gs);
        proof {
            lemma_all_keys_valid(gs);
        }
        self.hash_type = hash_type;
        let mut entries: Vec<(String, RomAndGame)> = Vec::new();
        let mut i: usize = 0;
        while i < self.roms_and_games.len()
            invariant
                i <= ks.len(),
                gs == self.games(),
                ks == all_keys(gs),
                keys_view(self.roms_and_games@) == ks,
                forall|j: int| 0 <= j < ks.len() ==> key_valid(gs, #[trigger] ks[j]),
                entries_view(entries@) == hash_entries(gs, ks.take(i as int), hash_type),
            decreases ks.len() - i,
        {
            let k = self.roms_and_games[i];
            assert(key_view(k) == ks[i as int]);
            assert(key_valid(gs, ks[i as int]));
            let rom = &self.persistent_data[k.game].roms[k.rom];
            assert(rom@ == rom_at(gs, ks[i as int]));
            let h = rom_hash_of(rom, hash_type);
            let ghost before = entries@;
            assert(ks.take(i + 1).drop_last() =~= ks.take(i as int));
            match h {
                Some(s) => {
                    entries.push((s, k));
                    assert(entries_view(entries@) =~= entries_view(before).push(
                        (entries@.last().0@, key_view(k)),
                    ));
                },
                None => {},
            }
            i = i + 1;
        }
        assert(ks.take(i as int) =~= ks);
        self.roms_by_hash = entries;
    }
}


/// `s` lists exactly the records of the table `m`, each path once.
pub open spec fn lists_files(s: Seq<ScannedFile>, m: Map<Seq<char>, FileView>) -> bool {
    &&& forall|i: int, j: int|
        0 <= i < j < s.len() ==> (#[trigger] s[i]).path@ != (#[trigger] s[j]).path@
    &&& forall|i: int|
        0 <= i < s.len() ==> m.contains_key((#[trigger] s[i]).path@) && m[s[i].path@] == s[i]@
    &&& forall|p: Seq<char>|
        m.contains_key(p) ==> exists|i: int| 0 <= i < s.len() && (#[trigger] s[i]).path@ == p
}

/// The records of the table whose base path satisfies `keep`.
pub open spec fn restrict_base(m: Map<Seq<char>, FileView>, keep: spec_fn(Seq<char>) -> bool) -> Map<
    Seq<char>,
    FileView,
> {
    Map::new(|p: Seq<char>| m.contains_key(p) && keep(m[p].base_path), |p: Seq<char>| m[p])
}

/// Whether `prefix` is a prefix of `s`, character by character.
pub fn has_prefix(s: &str, prefix: &str) -> (r: bool)
    ensures
        r == prefix@.is_prefix_of(s@),
{
    let n = s.unicode_len();
    let m = prefix.unicode_len();
    if m > n {
        return false;
    }
    let mut i: usize = 0;
    while i < m
        invariant
            n == s@.len(),
            m == prefix@.len(),
            m <= n,
            i <= m,
            forall|j: int| 0 <= j < i ==> prefix@[j] == s@[j],
        decreases m - i,
    {
        if s.get_char(i) != prefix.get_char(i) {
            return false;
        }
        i = i + 1;
    }
    true
}

impl Cache {
    /// The catalog games, in arena order.
    pub fn catalog(&self) -> (r: &Vec<Game>)
        ensures
            games_view(r@) == self.games(),
    {
        &self.persistent_data
    }

    /// Every stored file record, each path once.
    pub fn scanned(&self) -> (r: &Vec<ScannedFile>)
        requires
            self.wf(),
        ensures
            lists_files(r@, self.files()),
    {
        &self.scanned_files
    }

    /// The games called `name`: the one that overrides all others of that
    /// name, or nothing when the catalog has no such game.
    pub fn search_by_game_name(&self, name: &str) -> (r: Vec<Game>)
        requires
            self.wf(),
        ensures
            games_view(r@) == name_result(self.games(), name@),
    {
        let ghost gs = self.games();
        let n = name.to_owned();
        let mut k: usize = 0;
        while k < self.games_by_name.len()
            invariant
                k <= self.games_by_name@.len(),
                gs == self.games(),
                n@ == name@,
                names_wf(self.games_by_name@, gs),
                forall|j: int| 0 <= j < k ==> (#[trigger] self.games_by_name@[j]).0@ != name@,
            decreases self.games_by_name@.len() - k,
        {
            if self.games_by_name[k].0 == n {
                let i = self.games_by_name[k].1;
                proof {
                    lemma_last_named_bounds(gs, name@);
                    assert(last_named(gs, self.games_by_name@[k as int].0@) == Some(i as int));
                }
                let mut r: Vec<Game> = Vec::new();
                r.push(self.persistent_data[i].clone());
                assert(games_view(r@) =~= name_result(gs, name@));
                return r;
            }
            k = k + 1;
        }
        proof {
            if last_named(gs, name@).is_some() {
                let j = choose|j: int|
                    0 <= j < self.games_by_name@.len() && (#[trigger] self.games_by_name@[j]).0@
                        == name@;
                assert(false);
            }
        }
        let r: Vec<Game> = Vec::new();
        assert(games_view(r@) =~= name_result(gs, name@));
        r
    }

    /// All catalog roms whose hash of type `hash_type` is `hash`, grouped per
    /// game in catalog order. Fails when the index was built for another type.
    pub fn search_by_hash(&self, hash_type: HashType, hash: &str) -> (r: Result<
        Vec<(Game, Vec<Rom>)>,
        CatalogError,
    >)
        requires
            self.wf(),
        ensures
            hash_type != self.index_type() ==> r == Err::<Vec<(Game, Vec<Rom>)>, CatalogError>(
                CatalogError::TypeMismatch { expected: self.index_type(), got: hash_type },
            ),
            hash_type == self.index_type() ==> r.is_ok() && result_view(r.unwrap()@)
                == groups_result(self.games(), hash_groups(self.games(), hash_type, hash@)),
    {
        if hash_type != self.hash_type {
            return Err(CatalogError::TypeMismatch { expected: self.hash_type, got: hash_type });
        }
        let ghost gs = self.games();
        let ghost es = entries_view(self.roms_by_hash@);
        proof {
            lemma_all_keys_valid(gs);
            lemma_hash_entries_valid(gs, all_keys(gs), hash_type);
        }
        let h = hash.to_owned();
        let mut out: Vec<(Game, Vec<Rom>)> = Vec::new();
        let mut last_game: Option<usize> = None;
        let mut i: usize = 0;
        while i < self.roms_by_hash.len()
            invariant
                i <= es.len(),
                gs == self.games(),
                es == entries_view(self.roms_by_hash@),
                h@ == hash@,
                forall|j: int| 0 <= j < es.len() ==> key_valid(gs, #[trigger] es[j].1),
                result_view(out@) == groups_result(gs, group_keys(select(es.take(i as int), h@))),
                match last_game {
                    None => group_keys(select(es.take(i as int), h@)).len() == 0,
                    Some(g) => group_keys(select(es.take(i as int), h@)).len() > 0 && group_keys(
                        select(es.take(i as int), h@),
                    ).last().0 == g as int,
                },
            decreases es.len() - i,
        {
            let ghost sel = select(es.take(i as int), h@);
            let ghost grps = group_keys(sel);
            assert(es.take(i + 1).drop_last() =~= es.take(i as int));
            let e = &self.roms_by_hash[i];
            assert(es[i as int] == (e.0@, key_view(e.1)));
            if e.0 == h {
                let k = e.1;
                let ghost kk = key_view(k);
                assert(key_valid(gs, es[i as int].1));
                let ghost sel2 = sel.push(kk);
                assert(sel2.drop_last() =~= sel);
                assert(select(es.take(i + 1), h@) == sel2);
                let rom = self.persistent_data[k.game].roms[k.rom].clone();
                assert(rom@ == gs[kk.0].roms[kk.1]);
                let same = match last_game {
                    Some(g) => g == k.game,
                    None => false,
                };
                if same {
                    let ghost n = grps.len() - 1;
                    let ghost newg = (kk.0, grps.last().1.push(kk.1));
                    assert(group_keys(sel2) == grps.update(n, newg));
                    let ghost before = out@;
                    assert(grps.len() > 0);
                    assert(groups_result(gs, grps).len() == grps.len());
                    assert(result_view(out@).len() == out@.len());
                    let mut grp = out.pop().unwrap();
                    assert(before.last() == grp);
                    let ghost old_roms = grp.1@;
                    let ghost old_first = grp.0;
                    assert(result_view(before)[n] == groups_result(gs, grps)[n]);
                    assert(grp.0@ == gs[kk.0]);
                    grp.1.push(rom);
                    assert(roms_view(grp.1@) =~= roms_view(old_roms).push(rom@));
                    assert(newg.1.map_values(|r: int| gs[newg.0].roms[r]) =~= grps.last().1.map_values(
                        |r: int| gs[kk.0].roms[r],
                    ).push(rom@));
                    out.push(grp);
                    assert(out@ =~= before.update(n, out@[n]));
                    assert(result_view(out@) =~= result_view(before).update(
                        n,
                        (gs[kk.0], newg.1.map_values(|r: int| gs[newg.0].roms[r])),
                    ));
                    assert(groups_result(gs, grps.update(n, newg)) =~= groups_result(
                        gs,
                        grps,
                    ).update(n, (gs[kk.0], newg.1.map_values(|r: int| gs[newg.0].roms[r]))));
                    assert(result_view(out@) =~= groups_result(gs, grps.update(n, newg)));
                } else {
                    let ghost newg = (kk.0, seq![kk.1]);
                    assert(group_keys(sel2) == grps.push(newg));
                    let mut v: Vec<Rom> = Vec::new();
                    v.push(rom);
                    assert(roms_view(v@) =~= seq![rom@]);
                    assert(newg.1.map_values(|r: int| gs[newg.0].roms[r]) =~= seq![rom@]);
                    let ghost before = out@;
                    out.push((self.persistent_data[k.game].clone(), v));
                    assert(result_view(out@) =~= result_view(before).push(
                        (gs[kk.0], seq![rom@]),
                    ));
                    assert(result_view(out@) =~= groups_result(gs, grps.push(newg)));
                    last_game = Some(k.game);
                }
            } else {
                assert(select(es.take(i + 1), h@) == sel);
            }
            i = i + 1;
        }
        assert(es.take(i as int) =~= es);
        Ok(out)
    }
}

/// Every key of a hash index built from valid keys is valid.
proof fn lemma_hash_entries_valid(games: Seq<GameView>, keys: Seq<Key>, t: HashType)
    requires
        forall|i: int| 0 <= i < keys.len() ==> key_valid(games, #[trigger] keys[i]),
    ensures
        forall|j: int|
            0 <= j < hash_entries(games, keys, t).len() ==> key_valid(
                games,
                #[trigger] hash_entries(games, keys, t)[j].1,
            ),
    decreases keys.len(),
{
    if keys.len() > 0 {
        let pre = keys.drop_last();
        assert forall|i: int| 0 <= i < pre.len() implies key_valid(games, #[trigger] pre[i]) by {
            assert(pre[i] == keys[i]);
        }
        lemma_hash_entries_valid(games, pre, t);
        assert(key_valid(games, keys[keys.len() - 1]));
        let prev = hash_entries(games, pre, t);
        let cur = hash_entries(games, keys, t);
        assert forall|j: int| 0 <= j < cur.len() implies key_valid(games, #[trigger] cur[j].1) by {
            if j < prev.len() {
                assert(cur[j] == prev[j]);
            }
        }
    }
}


impl Cache {
    /// The position of the stored record with path `path`, if any.
    fn find_file(&self, path: &String) -> (r: Option<usize>)
        requires
            self.files_wf(),
        ensures
            match r {
                Some(j) => j < self.scanned_files@.len() && self.scanned_files@[j as int].path@
                    == path@,
                None => !self.files().contains_key(path@),
            },
    {
        let mut j: usize = 0;
        while j < self.scanned_files.len()
            invariant
                j <= self.scanned_files@.len(),
                forall|k: int| 0 <= k < j ==> (#[trigger] self.scanned_files@[k]).path@ != path@,
            decreases self.scanned_files@.len() - j,
        {
            if self.scanned_files[j].path == *path {
                return Some(j);
            }
            j = j + 1;
        }
        None
    }

    /// Stores a file record, replacing any record of the same path.
    pub fn store_file(&mut self, file: &ScannedFile)
        requires
            old(self).wf(),
        ensures
            final(self).wf(),
            final(self).files() == old(self).files().insert(file.path@, file@),
            final(self).games() == old(self).games(),
            final(self).index_type() == old(self).index_type(),
    {
        let ghost m = self.files_model@;
        let ghost fs = self.scanned_files@;
        let found = self.find_file(&file.path);
        match found {
            Some(j) => {
                self.scanned_files.set(j, file.clone());
            },
            None => {
                self.scanned_files.push(file.clone());
            },
        }
        self.files_model = Ghost(m.insert(file.path@, file@));
        let ghost nfs = self.scanned_files@;
        let ghost nm = self.files_model@;
        assert forall|p: Seq<char>| nm.contains_key(p) implies exists|i: int|
            0 <= i < nfs.len() && (#[trigger] nfs[i]).path@ == p by {
            if p == file.path@ {
                match found {
                    Some(j) => assert(nfs[j as int].path@ == p),
                    None => assert(nfs[fs.len() as int].path@ == p),
                }
            } else {
                let i = choose|i: int| 0 <= i < fs.len() && (#[trigger] fs[i]).path@ == p;
                assert(nfs[i].path@ == p);
            }
        }
        assert forall|i: int, j: int| 0 <= i < j < nfs.len() implies (#[trigger] nfs[i]).path@
            != (#[trigger] nfs[j]).path@ by {
            if j == fs.len() {
                assert(m.contains_key(fs[i].path@));
            }
        }
    }

    /// Removes the stored record of one path, if there is one.
    pub fn delete_file(&mut self, path: &str)
        requires
            old(self).wf(),
        ensures
            final(self).wf(),
            final(self).files() == old(self).files().remove(path@),
            final(self).games() == old(self).games(),
            final(self).index_type() == old(self).index_type(),
    {
        let ghost m = self.files_model@;
        let ghost fs = self.scanned_files@;
        let p = path.to_owned();
        let found = self.find_file(&p);
        match found {
            Some(j) => {
                self.scanned_files.remove(j);
                self.files_model = Ghost(m.remove(path@));
                let ghost nfs = self.scanned_files@;
                let ghost nm = self.files_model@;
                assert forall|i: int| 0 <= i < nfs.len() implies nm.contains_key(
                    (#[trigger] nfs[i]).path@,
                ) && nm[nfs[i].path@] == nfs[i]@ by {
                    if i < j {
                        assert(nfs[i] == fs[i]);
                    } else {
                        assert(nfs[i] == fs[i + 1]);
                    }
                }
                assert forall|q: Seq<char>| nm.contains_key(q) implies exists|i: int|
                    0 <= i < nfs.len() && (#[trigger] nfs[i]).path@ == q by {
                    let i = choose|i: int| 0 <= i < fs.len() && (#[trigger] fs[i]).path@ == q;
                    if i < j {
                        assert(nfs[i] == fs[i]);
                    } else {
                        assert(i != j);
                        assert(nfs[i - 1] == fs[i]);
                    }
                }
                assert forall|a: int, b: int| 0 <= a < b < nfs.len() implies (#[trigger] nfs[
                    a
                ]).path@ != (#[trigger] nfs[b]).path@ by {
                    let a2 = if a < j { a } else { a + 1 };
                    let b2 = if b < j { b } else { b + 1 };
                    assert(nfs[a] == fs[a2]);
                    assert(nfs[b] == fs[b2]);
                }
            },
            None => {
                assert(m.remove(path@) =~= m);
            },
        }
    }

    /// The stored records whose base path relates to `base` as `filter` says,
    /// in table order.
    fn files_where(&self, base: &str, filter: BaseFilter) -> (r: Vec<ScannedFile>)
        requires
            self.wf(),
        ensures
            lists_files(r@, restrict_base(self.files(), filter_spec(filter, base@))),
    {
        let ghost fs = self.scanned_files@;
        let ghost m = self.files_model@;
        let ghost keep = filter_spec(filter, base@);
        let ghost target = restrict_base(m, keep);
        let b = base.to_owned();
        let mut out: Vec<ScannedFile> = Vec::new();
        let ghost mut idx: Seq<int> = seq![];
        let mut i: usize = 0;
        while i < self.scanned_files.len()
            invariant
                i <= fs.len(),
                fs == self.scanned_files@,
                m == self.files_model@,
                self.files_wf(),
                b@ == base@,
                target == restrict_base(m, keep),
                keep == filter_spec(filter, base@),
                idx.len() == out@.len(),
                forall|k: int| 0 <= k < idx.len() ==> 0 <= #[trigger] idx[k] < i,
                forall|k: int, l: int| 0 <= k < l < idx.len() ==> #[trigger] idx[k] < #[trigger] idx[l],
                forall|k: int| 0 <= k < idx.len() ==> out@[k] == fs[#[trigger] idx[k]],
                forall|k: int| 0 <= k < out@.len() ==> keep((#[trigger] out@[k]).base_path@),
                forall|j: int|
                    0 <= j < i && keep((#[trigger] fs[j]).base_path@) ==> exists|k: int|
                        0 <= k < idx.len() && idx[k] == j,
            decreases fs.len() - i,
        {
            let f = &self.scanned_files[i];
            let take = match filter {
                BaseFilter::Equal => f.base_path == b,
                BaseFilter::Under => has_prefix(f.base_path.as_str(), b.as_str()),
                BaseFilter::Other => f.base_path != b,
            };
            if take {
                let ghost before = out@;
                let ghost old_idx = idx;
                out.push(f.clone());
                proof {
                    idx = idx.push(i as int);
                    assert(out@[out@.len() - 1] == fs[i as int]);
                    assert forall|j: int|
                        0 <= j < i + 1 && keep((#[trigger] fs[j]).base_path@) implies exists|k: int|
                        0 <= k < idx.len() && idx[k] == j by {
                        if j == i {
                            assert(idx[idx.len() - 1] == j);
                        } else {
                            let k = choose|k: int| 0 <= k < old_idx.len() && old_idx[k] == j;
                            assert(idx[k] == j);
                        }
                    }
                }
            }
            i = i + 1;
        }
        proof {
            let r = out@;
            assert forall|a: int, c: int| 0 <= a < c < r.len() implies (#[trigger] r[a]).path@
                != (#[trigger] r[c]).path@ by {
                assert(r[a] == fs[idx[a]]);
                assert(r[c] == fs[idx[c]]);
            }
            assert forall|a: int| 0 <= a < r.len() implies target.contains_key(
                (#[trigger] r[a]).path@,
            ) && target[r[a].path@] == r[a]@ by {
                assert(r[a] == fs[idx[a]]);
            }
            assert forall|p: Seq<char>| target.contains_key(p) implies exists|a: int|
                0 <= a < r.len() && (#[trigger] r[a]).path@ == p by {
                let j = choose|j: int| 0 <= j < fs.len() && (#[trigger] fs[j]).path@ == p;
                assert(m[p] == fs[j]@);
                assert(keep(fs[j].base_path@));
                let k = choose|k: int| 0 <= k < idx.len() && idx[k] == j;
                assert(r[k] == fs[j]);
            }
        }
        out
    }

    /// The stored records of exactly this base path.
    pub fn get_files_by_base_path(&self, base_path: &str) -> (r: Vec<ScannedFile>)
        requires
            self.wf(),
        ensures
            lists_files(r@, restrict_base(self.files(), filter_spec(BaseFilter::Equal, base_path@))),
    {
        self.files_where(base_path, BaseFilter::Equal)
    }

    /// The stored records of this base path and of every path below it.
    pub fn get_files_under_base_path(&self, base_path: &str) -> (r: Vec<ScannedFile>)
        requires
            self.wf(),
        ensures
            lists_files(r@, restrict_base(self.files(), filter_spec(BaseFilter::Under, base_path@))),
    {
        self.files_where(base_path, BaseFilter::Under)
    }
}


/// How a stored record's base path is compared with a given one.
#[derive(Clone, Copy, Debug, PartialEq, Eq, Structural)]
pub enum BaseFilter {
    /// The same path.
    Equal,
    /// The path itself or one below it (a textual prefix).
    Under,
    /// Any other path.
    Other,
}

/// The base-path test a filter stands for.
pub open spec fn filter_spec(filter: BaseFilter, base: Seq<char>) -> spec_fn(Seq<char>) -> bool {
    match filter {
        BaseFilter::Equal => |b: Seq<char>| b == base,
        BaseFilter::Under => |b: Seq<char>| base.is_prefix_of(b),
        BaseFilter::Other => |b: Seq<char>| b != base,
    }
}

impl Cache {
    /// Removes every stored record of one base path; the catalog is untouched.
    pub fn clear_files_by_base_path(&mut self, base_path: &str)
        requires
            old(self).wf(),
        ensures
            final(self).wf(),
            final(self).files() == clear_base(old(self).files(), base_path@),
            final(self).games() == old(self).games(),
            final(self).index_type() == old(self).index_type(),
    {
        let ghost m = self.files_model@;
        let kept = self.files_where(base_path, BaseFilter::Other);
        assert(restrict_base(m, filter_spec(BaseFilter::Other, base_path@)) =~= clear_base(
            m,
            base_path@,
        ));
        self.scanned_files = kept;
        self.files_model = Ghost(clear_base(m, base_path@));
    }
}


impl Cache {
    /// Rebuilds an index from the two record sequences a saved index holds:
    /// the catalog games in order, then the file records. A later file record
    /// replaces an earlier one of the same path. The hash index is built for
    /// SHA-1.
    pub fn from_records(games: Vec<Game>, files: Vec<ScannedFile>) -> (r: Cache)
        ensures
            r.wf(),
            r.games() == games_view(games@),
            r.files() == store_all(Map::empty(), crate::models::files_view(files@)),
            r.index_type() == HashType::Sha1,
    {
        let mut c = Cache::new();
        c.persistent_data = games;
        c.rebuild_cache_files();
        let ghost fv = crate::models::files_view(files@);
        let mut i: usize = 0;
        while i < files.len()
            invariant
                i <= files@.len(),
                fv == crate::models::files_view(files@),
                c.wf(),
                c.games() == games_view(games@),
                c.index_type() == HashType::Sha1,
                c.files() == store_all(Map::empty(), fv.take(i as int)),
            decreases files@.len() - i,
        {
            c.store_file(&files[i]);
            assert(fv.take(i + 1).drop_last() =~= fv.take(i as int));
            i = i + 1;
        }
        assert(fv.take(i as int) =~= fv);
        c
    }
}


/// The file table after removing every stale record that moved.
pub open spec fn remove_moved(
    m: Map<Seq<char>, FileView>,
    stale: Seq<ScannedFile>,
    fresh: Seq<(String, String)>,
) -> Map<Seq<char>, FileView>
    decreases stale.len(),
{
    if stale.len() == 0 {
        m
    } else {
        let prev = remove_moved(m, stale.drop_last(), fresh);
        if disposition_spec(stale.last().hash@, fresh) == Disposition::Moved {
            prev.remove(stale.last().path@)
        } else {
            prev
        }
    }
}

impl Cache {
    /// Ends a re-scan: decides for each stored record the walk did not meet
    /// whether it moved or is gone, and deletes the records that moved (the
    /// new path already has its own record). Gone records stay.
    pub fn apply_moves(&mut self, stale: &Vec<ScannedFile>, fresh: &Vec<(String, String)>) -> (r: Vec<
        Disposition,
    >)
        requires
            old(self).wf(),
        ensures
            final(self).wf(),
            final(self).games() == old(self).games(),
            final(self).index_type() == old(self).index_type(),
            final(self).files() == remove_moved(old(self).files(), stale@, fresh@),
            r@.len() == stale@.len(),
            forall|i: int|
                0 <= i < stale@.len() ==> (#[trigger] r@[i]) == disposition_spec(
                    stale@[i].hash@,
                    fresh@,
                ),
    {
        let ghost m0 = self.files();
        let mut out: Vec<Disposition> = Vec::new();
        let mut i: usize = 0;
        while i < stale.len()
            invariant
                i <= stale@.len(),
                self.wf(),
                self.games() == old(self).games(),
                self.index_type() == old(self).index_type(),
                m0 == old(self).files(),
                self.files() == remove_moved(m0, stale@.take(i as int), fresh@),
                out@.len() == i,
                forall|k: int|
                    0 <= k < i ==> (#[trigger] out@[k]) == disposition_spec(stale@[k].hash@, fresh@),
            decreases stale@.len() - i,
        {
            assert(stale@.take(i + 1).drop_last() =~= stale@.take(i as int));
            let d = disposition(&stale[i], fresh);
            if d == Disposition::Moved {
                self.delete_file(stale[i].path.as_str());
            }
            out.push(d);
            i = i + 1;
        }
        assert(stale@.take(i as int) =~= stale@);
        out
    }
}

impl Cache {
    /// The two record sequences a saved index holds: the catalog games in
    /// order, then every stored file record.
    pub fn to_records(&self) -> (r: (Vec<Game>, Vec<ScannedFile>))
        requires
            self.wf(),
        ensures
            games_view(r.0@) == self.games(),
            lists_files(r.1@, self.files()),
    {
        let mut games: Vec<Game> = Vec::new();
        let mut i: usize = 0;
        while i < self.persistent_data.len()
            invariant
                i <= self.persistent_data@.len(),
                games_view(games@) == games_view(self.persistent_data@).take(i as int),
            decreases self.persistent_data@.len() - i,
        {
            let ghost before = games@;
            let g = self.persistent_data[i].clone();
            games.push(g);
            assert(games_view(games@) =~= games_view(before).push(self.persistent_data@[i as int]@));
            assert(games_view(games@) =~= games_view(self.persistent_data@).take(i + 1));
            i = i + 1;
        }
        assert(games_view(self.persistent_data@).take(i as int) =~= self.games());
        let mut files: Vec<ScannedFile> = Vec::new();
        let mut j: usize = 0;
        while j < self.scanned_files.len()
            invariant
                j <= self.scanned_files@.len(),
                files@ == self.scanned_files@.take(j as int),
            decreases self.scanned_files@.len() - j,
        {
            files.push(self.scanned_files[j].clone());
            assert(files@ =~= self.scanned_files@.take(j + 1));
            j = j + 1;
        }
        assert(files@ =~= self.scanned_files@);
        (games, files)
    }
}

} // verus!
