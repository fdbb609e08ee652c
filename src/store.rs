use vstd::prelude::*;

use crate::cache::{result_view, CatalogError};
use crate::models::{roms_view, Game, GameView, Rom, RomView};

verus! {

/// A rom column a search can test.
#[derive(Clone, Copy, Debug, PartialEq, Eq, Structural)]
pub enum RomColumn {
    Name,
    Crc,
    Md5,
    Sha1,
}

/// A catalog search as a user asks for it.
pub enum SearchType {
    /// Games whose name contains the text.
    Game { name: String },
    /// Roms that meet every given term: the name as a substring, the hashes
    /// exactly.
    Rom { name: Option<String>, crc: Option<String>, md5: Option<String>, sha1: Option<String> },
}

/// A rom search: columns that must equal a value, and columns that must
/// contain one.
pub struct RomQuery {
    pub exact: Vec<(RomColumn, String)>,
    pub fuzzy: Vec<(RomColumn, String)>,
}

/// Search terms as plain values.
pub open spec fn crit_view(v: Seq<(RomColumn, String)>) -> Seq<(RomColumn, Seq<char>)> {
    v.map_values(|c: (RomColumn, String)| (c.0, c.1@))
}

/// The term for a column, when a value is given.
pub open spec fn opt_crit(c: RomColumn, v: Option<String>) -> Seq<(RomColumn, Seq<char>)> {
    match v {
        Some(s) => seq![(c, s@)],
        None => seq![],
    }
}

fn push_opt(out: &mut Vec<(RomColumn, String)>, c: RomColumn, v: &Option<String>)
    ensures
        crit_view(final(out)@) == crit_view(old(out)@) + opt_crit(c, *v),
{
    let ghost before = out@;
    match v {
        Some(s) => {
            out.push((c, s.clone()));
            assert(crit_view(out@) =~= crit_view(before) + opt_crit(c, *v));
        },
        None => {
            assert(crit_view(out@) =~= crit_view(before) + opt_crit(c, *v));
        },
    }
}

/// Builds a rom search from the optional terms: the name is matched as a
/// substring, the hashes exactly. A search with no term at all is refused.
pub fn search_roms(
    name: &Option<String>,
    crc: &Option<String>,
    md5: &Option<String>,
    sha1: &Option<String>,
) -> (r: Result<RomQuery, CatalogError>)
    ensures
        (name.is_none() && crc.is_none() && md5.is_none() && sha1.is_none()) <==> r
            == Err::<RomQuery, CatalogError>(CatalogError::InvalidQuery),
        r.is_ok() ==> crit_view(r.unwrap().fuzzy@) == opt_crit(RomColumn::Name, *name),
        r.is_ok() ==> crit_view(r.unwrap().exact@) == opt_crit(RomColumn::Crc, *crc) + opt_crit(
            RomColumn::Md5,
            *md5,
        ) + opt_crit(RomColumn::Sha1, *sha1),
{
    if name.is_none() && crc.is_none() && md5.is_none() && sha1.is_none() {
        return Err(CatalogError::InvalidQuery);
    }
    let mut exact: Vec<(RomColumn, String)> = Vec::new();
    let mut fuzzy: Vec<(RomColumn, String)> = Vec::new();
    assert(crit_view(exact@) =~= Seq::<(RomColumn, Seq<char>)>::empty());
    assert(crit_view(fuzzy@) =~= Seq::<(RomColumn, Seq<char>)>::empty());
    push_opt(&mut fuzzy, RomColumn::Name, name);
    push_opt(&mut exact, RomColumn::Crc, crc);
    push_opt(&mut exact, RomColumn::Md5, md5);
    push_opt(&mut exact, RomColumn::Sha1, sha1);
    assert(Seq::<(RomColumn, Seq<char>)>::empty() + opt_crit(RomColumn::Name, *name) =~= opt_crit(
        RomColumn::Name,
        *name,
    ));
    assert(Seq::<(RomColumn, Seq<char>)>::empty() + opt_crit(RomColumn::Crc, *crc) =~= opt_crit(
        RomColumn::Crc,
        *crc,
    ));
    Ok(RomQuery { exact, fuzzy })
}

/// The position of the group of game `name`, if any.
pub open spec fn find_group(v: Seq<(GameView, Seq<RomView>)>, name: Seq<char>) -> Option<int>
    decreases v.len(),
{
    if v.len() == 0 {
        None
    } else if v.last().0.name == name {
        Some(v.len() - 1)
    } else {
        find_group(v.drop_last(), name)
    }
}

/// Rows of (game, rom) grouped per game name, in order of first appearance;
/// each group keeps the game of its first row.
pub open spec fn group_rows_spec(rows: Seq<(GameView, RomView)>) -> Seq<(GameView, Seq<RomView>)>
    decreases rows.len(),
{
    if rows.len() == 0 {
        seq![]
    } else {
        let prev = group_rows_spec(rows.drop_last());
        let row = rows.last();
        match find_group(prev, row.0.name) {
            Some(i) => prev.update(i, (prev[i].0, prev[i].1.push(row.1))),
            None => prev.push((row.0, seq![row.1])),
        }
    }
}

/// Joined rows as plain values.
pub open spec fn rows_view(rows: Seq<(Game, Rom)>) -> Seq<(GameView, RomView)> {
    rows.map_values(|r: (Game, Rom)| (r.0@, r.1@))
}

/// Groups the rows of a joined game/rom query per game name.
pub fn group_rows(rows: Vec<(Game, Rom)>) -> (r: Vec<(Game, Vec<Rom>)>)
    ensures
        result_view(r@) == group_rows_spec(rows_view(rows@)),
{
    let ghost rv = rows_view(rows@);
    let mut out: Vec<(Game, Vec<Rom>)> = Vec::new();
    let mut i: usize = 0;
    while i < rows.len()
        invariant
            i <= rows@.len(),
            rv == rows_view(rows@),
            result_view(out@) == group_rows_spec(rv.take(i as int)),
        decreases rows@.len() - i,
    {
        let ghost ov = result_view(out@);
        assert(rv.take(i + 1).drop_last() =~= rv.take(i as int));
        let row = &rows[i];
        assert(rv[i as int] == (row.0@, row.1@));
        let mut j: usize = out.len();
        assert(ov.take(j as int) =~= ov);
        let mut found: Option<usize> = None;
        while j > 0 && found.is_none()
            invariant
                j <= out@.len(),
                ov == result_view(out@),
                found.is_none() ==> find_group(ov, row.0.name@) == find_group(
                    ov.take(j as int),
                    row.0.name@,
                ),
                match found {
                    Some(k) => k < out@.len() && find_group(ov, row.0.name@) == Some(k as int),
                    None => true,
                },
            decreases j + (if found.is_none() { 1int } else { 0int }),
        {
            assert(ov.take(j as int).drop_last() =~= ov.take(j - 1));
            if out[j - 1].0.name == row.0.name {
                assert(ov[j - 1].0.name == row.0.name@);
                assert(ov.take(j as int).last() == ov[j - 1]);
                found = Some(j - 1);
            } else {
                j = j - 1;
            }
        }
        match found {
            Some(k) => {
                let ghost before = out@;
                let mut grp = out.remove(k);
                let ghost old_roms = grp.1@;
                grp.1.push(row.1.clone());
                assert(roms_view(grp.1@) =~= roms_view(old_roms).push(row.1@));
                out.insert(k, grp);
                assert(result_view(out@) =~= ov.update(k as int, (ov[k as int].0, ov[k as int].1.push(row.1@))));
            },
            None => {
                assert(ov.take(0) =~= Seq::<(GameView, Seq<RomView>)>::empty());
                assert(find_group(ov, row.0.name@).is_none());
                let mut v: Vec<Rom> = Vec::new();
                v.push(row.1.clone());
                assert(roms_view(v@) =~= seq![row.1@]);
                let ghost before = out@;
                out.push((row.0.clone(), v));
                assert(result_view(out@) =~= ov.push((row.0@, seq![row.1@])));
            },
        }
        i = i + 1;
    }
    assert(rv.take(i as int) =~= rv);
    out
}

} // verus!
