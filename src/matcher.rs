use vstd::prelude::*;

use crate::cache::result_view;
use crate::models::{
    file_record_wf, files_view, opt_view, FileView, Game, GameView, HashType, MatchType, Rom, RomView, ScannedFile,
};

verus! {

/// A game name and a rom name.
pub type NamePair = (Seq<char>, Seq<char>);

/// A list of (game, rom) name pairs as sequences of characters.
pub open spec fn pairs_view(v: Seq<(String, String)>) -> Seq<NamePair> {
    v.map_values(|p: (String, String)| (p.0@, p.1@))
}

/// The (game, rom) pairs of one game's roms whose name equals the file's
/// name (`exact`) or differs from it (`!exact`), in order.
pub open spec fn rom_pairs(game: Seq<char>, roms: Seq<RomView>, file: Seq<char>, exact: bool) -> Seq<
    NamePair,
>
    decreases roms.len(),
{
    if roms.len() == 0 {
        seq![]
    } else {
        let prev = rom_pairs(game, roms.drop_last(), file, exact);
        if (roms.last().name == file) == exact {
            prev.push((game, roms.last().name))
        } else {
            prev
        }
    }
}

/// The (game, rom) pairs of a hash search result that match the file name
/// exactly (`exact`) or only by hash (`!exact`), in result order.
pub open spec fn match_pairs(results: Seq<(GameView, Seq<RomView>)>, file: Seq<char>, exact: bool) -> Seq<
    NamePair,
>
    decreases results.len(),
{
    if results.len() == 0 {
        seq![]
    } else {
        match_pairs(results.drop_last(), file, exact) + rom_pairs(
            results.last().0.name,
            results.last().1,
            file,
            exact,
        )
    }
}

/// The candidates of one file, split by whether the rom's name equals the
/// file's name.
pub struct Matches {
    pub exact: Vec<(String, String)>,
    pub partial: Vec<(String, String)>,
}

/// How a scan treats the candidates of a file.
#[derive(Clone, Copy, Debug, PartialEq, Eq, Structural)]
pub struct ScanOptions {
    /// Record only the first exact match of a file.
    pub first_match: bool,
    /// Record no partial match for a file that has an exact one.
    pub ignore_partial: bool,
    /// Rename a file to its rom's name when exactly one partial match exists.
    pub fix: bool,
}

/// What to do with one scanned file: the records to store, and the rom name
/// to rename the file to first. When a rename is asked for, `records` holds
/// the single partial record to store if the rename fails.
pub struct FilePlan {
    pub records: Vec<ScannedFile>,
    pub rename_to: Option<String>,
}

/// The record `t` marked as matching the pair `p` in the given way.
pub open spec fn with_match(t: FileView, m: MatchType, p: NamePair) -> FileView {
    FileView { match_type: m, game_name: Some(p.0), rom_name: Some(p.1), ..t }
}

/// One marked copy of `t` per pair, in order.
pub open spec fn tag_all(t: FileView, m: MatchType, ps: Seq<NamePair>) -> Seq<FileView> {
    ps.map_values(|p: NamePair| with_match(t, m, p))
}

/// The records a file yields, from its miss record `t` and its exact and
/// partial candidates.
pub open spec fn plan_records(t: FileView, ex: Seq<NamePair>, pa: Seq<NamePair>, o: ScanOptions) -> Seq<
    FileView,
> {
    let exact_part = if o.first_match && ex.len() > 0 {
        seq![with_match(t, MatchType::Exact, ex[0])]
    } else {
        tag_all(t, MatchType::Exact, ex)
    };
    if ex.len() == 0 && pa.len() == 0 {
        seq![t]
    } else if ex.len() > 0 && (o.first_match || o.ignore_partial) {
        exact_part
    } else {
        exact_part + tag_all(t, MatchType::Partial, pa)
    }
}

/// The rom name a file is renamed to: only a real file with no exact
/// candidate and exactly one partial one, in fix mode.
pub open spec fn plan_rename(ex: Seq<NamePair>, pa: Seq<NamePair>, o: ScanOptions, can_rename: bool) -> Option<
    Seq<char>,
> {
    if ex.len() == 0 && pa.len() == 1 && o.fix && can_rename {
        Some(pa[0].1)
    } else {
        None
    }
}

impl FilePlan {
    /// The records to store once a rename asked for by the plan was tried:
    /// with `renamed_to` the new path of a rename that succeeded, the renamed
    /// exact record; otherwise the plan's records as they are.
    pub fn records_after_rename(&self, renamed_to: Option<&str>) -> (r: Vec<ScannedFile>)
        ensures
            match (self.rename_to, renamed_to) {
                (Some(_), Some(p)) => self.records@.len() > 0 ==> files_view(r@) == seq![
                    FileView { path: p@, match_type: MatchType::Exact, ..self.records@[0]@ },
                ],
                _ => files_view(r@) == files_view(self.records@),
            },
    {
        let mut out: Vec<ScannedFile> = Vec::new();
        match (&self.rename_to, renamed_to) {
            (Some(_), Some(p)) => {
                if self.records.len() > 0 {
                    out.push(renamed_record(&self.records[0], p));
                    assert(files_view(out@) =~= seq![
                        FileView { path: p@, match_type: MatchType::Exact, ..self.records@[0]@ },
                    ]);
                }
                out
            },
            _ => {
                let mut i: usize = 0;
                while i < self.records.len()
                    invariant
                        i <= self.records@.len(),
                        out@ == self.records@.take(i as int),
                    decreases self.records@.len() - i,
                {
                    out.push(self.records[i].clone());
                    assert(out@ =~= self.records@.take(i + 1));
                    i = i + 1;
                }
                assert(out@ =~= self.records@);
                out
            },
        }
    }
}

/// The record of a file that matched nothing.
pub open spec fn miss_spec(base_path: Seq<char>, path: Seq<char>, hash: Seq<char>, t: HashType) -> FileView {
    FileView {
        base_path,
        path,
        hash,
        hash_type: t,
        match_type: MatchType::Miss,
        game_name: None,
        rom_name: None,
    }
}

/// Sorts the candidates of a hash search into exact matches (the rom's name
/// is the file's name) and partial ones, keeping the search order.
pub fn check_rom_matches(file_name: &str, results: &Vec<(Game, Vec<Rom>)>) -> (r: Matches)
    ensures
        pairs_view(r.exact@) == match_pairs(result_view(results@), file_name@, true),
        pairs_view(r.partial@) == match_pairs(result_view(results@), file_name@, false),
{
    let ghost rv = result_view(results@);
    let fname = file_name.to_owned();
    let mut exact: Vec<(String, String)> = Vec::new();
    let mut partial: Vec<(String, String)> = Vec::new();
    let mut i: usize = 0;
    while i < results.len()
        invariant
            i <= results@.len(),
            rv == result_view(results@),
            fname@ == file_name@,
            pairs_view(exact@) == match_pairs(rv.take(i as int), file_name@, true),
            pairs_view(partial@) == match_pairs(rv.take(i as int), file_name@, false),
        decreases results@.len() - i,
    {
        let game = &results[i].0;
        let roms = &results[i].1;
        let ghost gname = game.name@;
        let ghost rvs = rv[i as int].1;
        assert(rvs == crate::models::roms_view(roms@));
        let ghost ex0 = pairs_view(exact@);
        let ghost pa0 = pairs_view(partial@);
        let mut j: usize = 0;
        while j < roms.len()
            invariant
                j <= roms@.len(),
                rvs == crate::models::roms_view(roms@),
                gname == game.name@,
                fname@ == file_name@,
                pairs_view(exact@) == ex0 + rom_pairs(gname, rvs.take(j as int), file_name@, true),
                pairs_view(partial@) == pa0 + rom_pairs(
                    gname,
                    rvs.take(j as int),
                    file_name@,
                    false,
                ),
            decreases roms@.len() - j,
        {
            assert(rvs.take(j + 1).drop_last() =~= rvs.take(j as int));
            let rom = &roms[j];
            assert(rvs[j as int] == rom@);
            let ghost e_before = exact@;
            let ghost p_before = partial@;
            if rom.name == fname {
                exact.push((game.name.clone(), rom.name.clone()));
                assert(pairs_view(exact@) =~= pairs_view(e_before).push((gname, rom.name@)));
            } else {
                partial.push((game.name.clone(), rom.name.clone()));
                assert(pairs_view(partial@) =~= pairs_view(p_before).push((gname, rom.name@)));
            }
            j = j + 1;
        }
        assert(rvs.take(j as int) =~= rvs);
        assert(rv.take(i + 1).drop_last() =~= rv.take(i as int));
        i = i + 1;
    }
    assert(rv.take(i as int) =~= rv);
    Matches { exact, partial }
}

/// Marks a record as matching the given game and rom.
pub fn update_scanned(file: &mut ScannedFile, match_type: MatchType, game_name: &String, rom_name: &String)
    ensures
        final(file)@ == with_match(old(file)@, match_type, (game_name@, rom_name@)),
{
    file.match_type = match_type;
    file.game_name = Some(game_name.clone());
    file.rom_name = Some(rom_name.clone());
}

fn tagged(t: &ScannedFile, m: MatchType, p: &(String, String)) -> (r: ScannedFile)
    ensures
        r@ == with_match(t@, m, (p.0@, p.1@)),
{
    let mut f = t.clone();
    update_scanned(&mut f, m, &p.0, &p.1);
    f
}

fn push_tagged(out: &mut Vec<ScannedFile>, t: &ScannedFile, m: MatchType, ps: &Vec<(String, String)>)
    ensures
        files_view(final(out)@) == files_view(old(out)@) + tag_all(t@, m, pairs_view(ps@)),
{
    let ghost start = files_view(out@);
    let mut i: usize = 0;
    while i < ps.len()
        invariant
            i <= ps@.len(),
            files_view(out@) == start + tag_all(t@, m, pairs_view(ps@).take(i as int)),
        decreases ps@.len() - i,
    {
        let ghost before = out@;
        out.push(tagged(t, m, &ps[i]));
        assert(files_view(out@) =~= files_view(before).push(
            with_match(t@, m, (ps@[i as int].0@, ps@[i as int].1@)),
        ));
        assert(tag_all(t@, m, pairs_view(ps@).take(i + 1)) =~= tag_all(
            t@,
            m,
            pairs_view(ps@).take(i as int),
        ).push(with_match(t@, m, (ps@[i as int].0@, ps@[i as int].1@))));
        i = i + 1;
    }
    assert(pairs_view(ps@).take(i as int) =~= pairs_view(ps@));
}

/// Decides the records of one file from its miss record and its candidates.
/// `can_rename` is false for archive members, which are never renamed.
pub fn handle_rom_matches(
    template: &ScannedFile,
    matches: &Matches,
    options: &ScanOptions,
    can_rename: bool,
) -> (r: FilePlan)
    ensures
        files_view(r.records@) == plan_records(
            template@,
            pairs_view(matches.exact@),
            pairs_view(matches.partial@),
            *options,
        ),
        opt_view(r.rename_to) == plan_rename(
            pairs_view(matches.exact@),
            pairs_view(matches.partial@),
            *options,
            can_rename,
        ),
{
    let ghost ex = pairs_view(matches.exact@);
    let ghost pa = pairs_view(matches.partial@);
    let mut records: Vec<ScannedFile> = Vec::new();
    let n_ex = matches.exact.len();
    let n_pa = matches.partial.len();
    if n_ex == 0 && n_pa == 0 {
        records.push(template.clone());
        assert(files_view(records@) =~= seq![template@]);
        return FilePlan { records, rename_to: None };
    }
    if n_ex > 0 && options.first_match {
        records.push(tagged(template, MatchType::Exact, &matches.exact[0]));
        assert(files_view(records@) =~= seq![with_match(template@, MatchType::Exact, ex[0])]);
        return FilePlan { records, rename_to: None };
    }
    push_tagged(&mut records, template, MatchType::Exact, &matches.exact);
    assert(files_view(records@) =~= tag_all(template@, MatchType::Exact, ex));
    if n_ex > 0 && options.ignore_partial {
        return FilePlan { records, rename_to: None };
    }
    push_tagged(&mut records, template, MatchType::Partial, &matches.partial);
    let rename_to = if n_ex == 0 && n_pa == 1 && options.fix && can_rename {
        Some(matches.partial[0].1.clone())
    } else {
        None
    };
    FilePlan { records, rename_to }
}

/// The record of a file that was renamed to its rom's name: it now matches
/// exactly, under its new path.
pub fn renamed_record(record: &ScannedFile, new_path: &str) -> (r: ScannedFile)
    ensures
        r@ == (FileView { path: new_path@, match_type: MatchType::Exact, ..record@ }),
{
    let mut f = record.clone();
    f.path = new_path.to_owned();
    f.match_type = MatchType::Exact;
    f
}

/// The record of a file that matched nothing.
pub fn miss_record(base_path: &str, path: &str, hash: &str, hash_type: HashType) -> (r: ScannedFile)
    ensures
        r@ == miss_spec(base_path@, path@, hash@, hash_type),
{
    ScannedFile {
        base_path: base_path.to_owned(),
        path: path.to_owned(),
        hash: hash.to_owned(),
        hash_type,
        match_type: MatchType::Miss,
        game_name: None,
        rom_name: None,
    }
}

/// A record of file `file` keeps the record invariant, and its rom name is
/// the file's own name exactly when it matched exactly.
pub open spec fn record_names_ok(f: FileView, file: Seq<char>) -> bool {
    &&& file_record_wf(f)
    &&& f.match_type == MatchType::Miss ==> f.rom_name.is_none()
    &&& f.match_type == MatchType::Exact ==> f.rom_name == Some(file)
    &&& f.match_type == MatchType::Partial ==> f.rom_name != Some(file)
}

/// Two records of the same file: same base path, path, hash and algorithm.
pub open spec fn same_file(f: FileView, t: FileView) -> bool {
    f.base_path == t.base_path && f.path == t.path && f.hash == t.hash && f.hash_type == t.hash_type
}

proof fn lemma_rom_pairs_names(game: Seq<char>, roms: Seq<RomView>, file: Seq<char>, exact: bool)
    ensures
        forall|k: int|
            0 <= k < rom_pairs(game, roms, file, exact).len() ==> ((#[trigger] rom_pairs(
                game,
                roms,
                file,
                exact,
            )[k]).1 == file) == exact,
    decreases roms.len(),
{
    if roms.len() > 0 {
        lemma_rom_pairs_names(game, roms.drop_last(), file, exact);
        let prev = rom_pairs(game, roms.drop_last(), file, exact);
        let cur = rom_pairs(game, roms, file, exact);
        assert forall|k: int| 0 <= k < cur.len() implies ((#[trigger] cur[k]).1 == file) == exact by {
            if k < prev.len() {
                assert(cur[k] == prev[k]);
            }
        }
    }
}

proof fn lemma_match_pairs_names(results: Seq<(GameView, Seq<RomView>)>, file: Seq<char>, exact: bool)
    ensures
        forall|k: int|
            0 <= k < match_pairs(results, file, exact).len() ==> ((#[trigger] match_pairs(
                results,
                file,
                exact,
            )[k]).1 == file) == exact,
    decreases results.len(),
{
    if results.len() > 0 {
        lemma_match_pairs_names(results.drop_last(), file, exact);
        let prev = match_pairs(results.drop_last(), file, exact);
        let tail = rom_pairs(results.last().0.name, results.last().1, file, exact);
        lemma_rom_pairs_names(results.last().0.name, results.last().1, file, exact);
        let cur = match_pairs(results, file, exact);
        assert forall|k: int| 0 <= k < cur.len() implies ((#[trigger] cur[k]).1 == file) == exact by {
            if k < prev.len() {
                assert(cur[k] == prev[k]);
            } else {
                assert(cur[k] == tail[k - prev.len()]);
            }
        }
    }
}

/// Every record a file's plan holds keeps the record invariant and names
/// the rom as the file's own name exactly when it matched exactly.
pub proof fn lemma_plan_records_names(
    t: FileView,
    file: Seq<char>,
    ex: Seq<NamePair>,
    pa: Seq<NamePair>,
    o: ScanOptions,
)
    requires
        t.match_type == MatchType::Miss,
        t.game_name.is_none() && t.rom_name.is_none(),
        forall|k: int| 0 <= k < ex.len() ==> (#[trigger] ex[k]).1 == file,
        forall|k: int| 0 <= k < pa.len() ==> (#[trigger] pa[k]).1 != file,
    ensures
        forall|i: int|
            0 <= i < plan_records(t, ex, pa, o).len() ==> record_names_ok(
                #[trigger] plan_records(t, ex, pa, o)[i],
                file,
            ) && same_file(plan_records(t, ex, pa, o)[i], t),
{
    let recs = plan_records(t, ex, pa, o);
    let exact_part = if o.first_match && ex.len() > 0 {
        seq![with_match(t, MatchType::Exact, ex[0])]
    } else {
        tag_all(t, MatchType::Exact, ex)
    };
    assert forall|i: int| 0 <= i < exact_part.len() implies record_names_ok(#[trigger] exact_part[i], file) && same_file(exact_part[i], t) by {
        if o.first_match && ex.len() > 0 {
            assert(exact_part[i] == with_match(t, MatchType::Exact, ex[0]));
        } else {
            assert(exact_part[i] == with_match(t, MatchType::Exact, ex[i]));
        }
    }
    let partial_part = tag_all(t, MatchType::Partial, pa);
    assert forall|i: int| 0 <= i < partial_part.len() implies record_names_ok(#[trigger] partial_part[i], file) && same_file(partial_part[i], t) by {
        assert(partial_part[i] == with_match(t, MatchType::Partial, pa[i]));
    }
    assert forall|i: int| 0 <= i < recs.len() implies record_names_ok(#[trigger] recs[i], file) && same_file(recs[i], t) by {
        if ex.len() == 0 && pa.len() == 0 {
            assert(recs[i] == t);
        } else if ex.len() > 0 && (o.first_match || o.ignore_partial) {
            assert(recs[i] == exact_part[i]);
        } else if i < exact_part.len() {
            assert(recs[i] == exact_part[i]);
        } else {
            assert(recs[i] == partial_part[i - exact_part.len()]);
        }
    }
}

/// Classifies one file from the result of the hash search for its content
/// hash: the records to store and, in fix mode, the rom name to rename it to.
pub fn classify_file(
    base_path: &str,
    path: &str,
    file_name: &str,
    hash: &str,
    hash_type: HashType,
    results: &Vec<(Game, Vec<Rom>)>,
    options: &ScanOptions,
    can_rename: bool,
) -> (r: FilePlan)
    ensures
        files_view(r.records@) == plan_records(
            miss_spec(base_path@, path@, hash@, hash_type),
            match_pairs(result_view(results@), file_name@, true),
            match_pairs(result_view(results@), file_name@, false),
            *options,
        ),
        opt_view(r.rename_to) == plan_rename(
            match_pairs(result_view(results@), file_name@, true),
            match_pairs(result_view(results@), file_name@, false),
            *options,
            can_rename,
        ),
        forall|i: int|
            0 <= i < r.records@.len() ==> record_names_ok(#[trigger] r.records@[i]@, file_name@)
                && same_file(r.records@[i]@, miss_spec(base_path@, path@, hash@, hash_type)),
{
    let template = miss_record(base_path, path, hash, hash_type);
    let matches = check_rom_matches(file_name, results);
    let r = handle_rom_matches(&template, &matches, options, can_rename);
    proof {
        let rv = result_view(results@);
        lemma_match_pairs_names(rv, file_name@, true);
        lemma_match_pairs_names(rv, file_name@, false);
        let ex = match_pairs(rv, file_name@, true);
        let pa = match_pairs(rv, file_name@, false);
        assert forall|k: int| 0 <= k < ex.len() implies (#[trigger] ex[k]).1 == file_name@ by {}
        assert forall|k: int| 0 <= k < pa.len() implies (#[trigger] pa[k]).1 != file_name@ by {}
        lemma_plan_records_names(template@, file_name@, ex, pa, *options);
        assert forall|i: int| 0 <= i < r.records@.len() implies record_names_ok(
            #[trigger] r.records@[i]@,
            file_name@,
        ) && same_file(r.records@[i]@, template@) by {
            assert(r.records@[i]@ == files_view(r.records@)[i]);
        }
    }
    r
}

} // verus!
