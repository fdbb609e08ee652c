use vstd::prelude::*;

use crate::models::{DataFile, Game, GameView, Rom, RomView};

verus! {

/// The position of the last dot of `s`, if any.
pub open spec fn last_dot(s: Seq<char>) -> Option<int>
    decreases s.len(),
{
    if s.len() == 0 {
        None
    } else if s.last() == '.' {
        Some(s.len() - 1)
    } else {
        last_dot(s.drop_last())
    }
}

/// A file name split at its last dot into stem and extension, when that dot
/// is not the name's first character.
pub open spec fn split_ext(name: Seq<char>) -> Option<(Seq<char>, Seq<char>)> {
    match last_dot(name) {
        Some(i) => if i > 0 {
            Some((name.subrange(0, i), name.subrange(i + 1, name.len() as int)))
        } else {
            None
        },
        None => None,
    }
}

/// The extension of a file name: what follows its last dot, unless the name
/// has no dot, its only dot comes first, or it is `..`.
pub open spec fn extension_spec(name: Seq<char>) -> Option<Seq<char>> {
    if name == seq!['.', '.'] {
        None
    } else {
        match split_ext(name) {
            Some(p) => Some(p.1),
            None => None,
        }
    }
}

/// `zip` in any mix of upper and lower case.
pub open spec fn is_zip_ext(e: Seq<char>) -> bool {
    e.len() == 3 && (e[0] == 'z' || e[0] == 'Z') && (e[1] == 'i' || e[1] == 'I') && (e[2] == 'p'
        || e[2] == 'P')
}

/// Some string of the list is `s`.
pub open spec fn listed(list: Seq<String>, s: Seq<char>) -> bool {
    exists|i: int| 0 <= i < list.len() && (#[trigger] list[i])@ == s
}

/// The file name has an extension that is in the excluded list.
pub open spec fn excluded_spec(name: Seq<char>, exclude: Seq<String>) -> bool {
    match extension_spec(name) {
        Some(e) => listed(exclude, e),
        None => false,
    }
}

/// A file is left out of a walk when it has no extension, an excluded one, or
/// its name starts with a dot.
pub open spec fn skip_spec(name: Seq<char>, exclude: Seq<String>) -> bool {
    extension_spec(name).is_none() || excluded_spec(name, exclude) || (name.len() > 0 && name[0]
        == '.')
}

fn find_last_dot(s: &str) -> (r: Option<usize>)
    ensures
        match r {
            Some(i) => last_dot(s@) == Some(i as int) && i < s@.len(),
            None => last_dot(s@).is_none(),
        },
{
    let n = s.unicode_len();
    let mut i: usize = n;
    assert(s@.take(n as int) =~= s@);
    while i > 0
        invariant
            i <= n,
            n == s@.len(),
            last_dot(s@) == last_dot(s@.take(i as int)),
        decreases i,
    {
        assert(s@.take(i as int).drop_last() =~= s@.take(i - 1));
        if s.get_char(i - 1) == '.' {
            return Some(i - 1);
        }
        i = i - 1;
    }
    None
}

/// Splits a file name at its last dot into stem and extension.
pub fn split_extension(name: &str) -> (r: Option<(String, String)>)
    ensures
        match r {
            Some(p) => split_ext(name@) == Some((p.0@, p.1@)),
            None => split_ext(name@).is_none(),
        },
{
    match find_last_dot(name) {
        Some(i) => {
            if i == 0 {
                None
            } else {
                let n = name.unicode_len();
                let stem = name.substring_char(0, i).to_owned();
                let ext = name.substring_char(i + 1, n).to_owned();
                Some((stem, ext))
            }
        },
        None => None,
    }
}

/// The extension of a file name, as `std::path::Path::extension` gives it.
pub fn extension(name: &str) -> (r: Option<String>)
    ensures
        match r {
            Some(e) => extension_spec(name@) == Some(e@),
            None => extension_spec(name@).is_none(),
        },
{
    let n = name.unicode_len();
    if n == 2 && name.get_char(0) == '.' && name.get_char(1) == '.' {
        assert(name@ =~= seq!['.', '.']);
        return None;
    }
    match split_extension(name) {
        Some(p) => Some(p.1),
        None => None,
    }
}

fn is_listed(list: &Vec<String>, s: &String) -> (r: bool)
    ensures
        r == listed(list@, s@),
{
    let mut i: usize = 0;
    while i < list.len()
        invariant
            i <= list@.len(),
            forall|j: int| 0 <= j < i ==> (#[trigger] list@[j])@ != s@,
        decreases list@.len() - i,
    {
        if list[i] == *s {
            return true;
        }
        i = i + 1;
    }
    false
}

/// Whether a file name carries an excluded extension.
pub fn is_excluded(name: &str, exclude_extensions: &Vec<String>) -> (r: bool)
    ensures
        r == excluded_spec(name@, exclude_extensions@),
{
    match extension(name) {
        Some(e) => is_listed(exclude_extensions, &e),
        None => false,
    }
}

/// Whether a regular file of this name is left out of a walk.
pub fn should_skip_file(name: &str, exclude_extensions: &Vec<String>) -> (r: bool)
    ensures
        r == skip_spec(name@, exclude_extensions@),
{
    match extension(name) {
        None => true,
        Some(e) => {
            if is_listed(exclude_extensions, &e) {
                true
            } else {
                name.unicode_len() > 0 && name.get_char(0) == '.'
            }
        },
    }
}

/// Whether a file name marks an archive whose members are scanned.
pub fn is_zip_file(name: &str) -> (r: bool)
    ensures
        r == match extension_spec(name@) {
            Some(e) => is_zip_ext(e),
            None => false,
        },
{
    match extension(name) {
        Some(e) => {
            let s = e.as_str();
            if s.unicode_len() != 3 {
                return false;
            }
            let a = s.get_char(0);
            let b = s.get_char(1);
            let c = s.get_char(2);
            (a == 'z' || a == 'Z') && (b == 'i' || b == 'I') && (c == 'p' || c == 'P')
        },
        None => false,
    }
}

/// The replacement a remapping table gives for a key: the last pair of that
/// key wins.
pub open spec fn lookup_last(table: Seq<(String, String)>, key: Seq<char>) -> Option<Seq<char>>
    decreases table.len(),
{
    if table.len() == 0 {
        None
    } else if table.last().0@ == key {
        Some(table.last().1@)
    } else {
        lookup_last(table.drop_last(), key)
    }
}

/// A rom name with its extension replaced as the table says.
pub open spec fn remapped_name(name: Seq<char>, table: Seq<(String, String)>) -> Seq<char> {
    match split_ext(name) {
        Some(p) => match lookup_last(table, p.1) {
            Some(new_ext) => p.0 + seq!['.'] + new_ext,
            None => name,
        },
        None => name,
    }
}

/// A rom with its name remapped.
pub open spec fn remap_rom(r: RomView, table: Seq<(String, String)>) -> RomView {
    RomView { name: remapped_name(r.name, table), ..r }
}

/// A game with every rom name remapped.
pub open spec fn remap_game(g: GameView, table: Seq<(String, String)>) -> GameView {
    GameView { roms: g.roms.map_values(|r: RomView| remap_rom(r, table)), ..g }
}

fn find_remap(table: &Vec<(String, String)>, key: &String) -> (r: Option<String>)
    ensures
        match r {
            Some(v) => lookup_last(table@, key@) == Some(v@),
            None => lookup_last(table@, key@).is_none(),
        },
{
    let mut i: usize = table.len();
    assert(table@.take(i as int) =~= table@);
    while i > 0
        invariant
            i <= table@.len(),
            lookup_last(table@, key@) == lookup_last(table@.take(i as int), key@),
        decreases i,
    {
        assert(table@.take(i as int).drop_last() =~= table@.take(i - 1));
        if table[i - 1].0 == *key {
            return Some(table[i - 1].1.clone());
        }
        i = i - 1;
    }
    None
}

fn remap_rom_name(name: &String, table: &Vec<(String, String)>) -> (r: String)
    ensures
        r@ == remapped_name(name@, table@),
{
    match split_extension(name.as_str()) {
        Some(p) => match find_remap(table, &p.1) {
            Some(new_ext) => {
                let dot = ".";
                proof {
                    reveal_strlit(".");
                }
                let with_dot = p.0.concat(dot);
                with_dot.concat(new_ext.as_str())
            },
            None => name.clone(),
        },
        None => name.clone(),
    }
}

/// Replaces the extension of every rom name of the catalog that the table
/// remaps (`3ds` to `cci`, say); names without an extension are kept.
pub fn remap_datafile(data: &mut DataFile, remap_extensions: &Vec<(String, String)>)
    ensures
        final(data).header == old(data).header,
        final(data).games@.len() == old(data).games@.len(),
        forall|i: int|
            0 <= i < old(data).games@.len() ==> (#[trigger] final(data).games@[i])@ == remap_game(
                old(data).games@[i]@,
                remap_extensions@,
            ),
{
    let mut games: Vec<Game> = Vec::new();
    let mut i: usize = 0;
    while i < data.games.len()
        invariant
            i <= data.games@.len(),
            games@.len() == i,
            forall|k: int|
                0 <= k < i ==> (#[trigger] games@[k])@ == remap_game(
                    data.games@[k]@,
                    remap_extensions@,
                ),
        decreases data.games@.len() - i,
    {
        let g = &data.games[i];
        let mut roms: Vec<Rom> = Vec::new();
        let mut j: usize = 0;
        while j < g.roms.len()
            invariant
                j <= g.roms@.len(),
                roms@.len() == j,
                forall|k: int|
                    0 <= k < j ==> (#[trigger] roms@[k])@ == remap_rom(
                        g.roms@[k]@,
                        remap_extensions@,
                    ),
            decreases g.roms@.len() - j,
        {
            let r = &g.roms[j];
            roms.push(
                Rom {
                    name: remap_rom_name(&r.name, remap_extensions),
                    size: r.size,
                    crc: crate::models::clone_opt_string(&r.crc),
                    md5: crate::models::clone_opt_string(&r.md5),
                    sha1: crate::models::clone_opt_string(&r.sha1),
                },
            );
            j = j + 1;
        }
        let ng = Game { name: g.name.clone(), description: g.description.clone(), roms };
        assert(ng@.roms =~= g@.roms.map_values(|r: RomView| remap_rom(r, remap_extensions@)));
        games.push(ng);
        i = i + 1;
    }
    data.games = games;
}

/// A `KEY=value` argument without its `=`.
#[derive(Clone, Copy, Debug, PartialEq, Eq, Structural)]
pub enum KeyValError {
    MissingSeparator,
}

/// Splits `KEY=value` at its first `=`.
pub fn parse_key_val(s: &str) -> (r: Result<(String, String), KeyValError>)
    ensures
        match r {
            Ok(p) => exists|i: int|
                0 <= i < s@.len() && s@[i] == '=' && (forall|j: int| 0 <= j < i ==> s@[j] != '=')
                    && p.0@ == s@.subrange(0, i) && p.1@ == s@.subrange(i + 1, s@.len() as int),
            Err(e) => e == KeyValError::MissingSeparator && forall|j: int|
                0 <= j < s@.len() ==> s@[j] != '=',
        },
{
    let n = s.unicode_len();
    let mut i: usize = 0;
    while i < n
        invariant
            n == s@.len(),
            i <= n,
            forall|j: int| 0 <= j < i ==> s@[j] != '=',
        decreases n - i,
    {
        if s.get_char(i) == '=' {
            let k = s.substring_char(0, i).to_owned();
            let v = s.substring_char(i + 1, n).to_owned();
            return Ok((k, v));
        }
        i = i + 1;
    }
    Err(KeyValError::MissingSeparator)
}

/// What a walk does with one directory entry.
#[derive(Clone, Copy, Debug, PartialEq, Eq, Structural)]
pub enum EntryKind {
    /// A subdirectory: queued in recursive mode.
    Directory,
    /// An archive whose members are scanned one by one.
    Archive,
    /// A regular file that is scanned.
    File,
    /// Not a regular file, or a name the walk leaves out.
    Skipped,
}

/// What a walk does with an entry of this name and file type.
pub open spec fn entry_kind_spec(name: Seq<char>, is_dir: bool, is_file: bool, exclude: Seq<String>) -> EntryKind {
    if is_dir {
        EntryKind::Directory
    } else if !is_file || skip_spec(name, exclude) {
        EntryKind::Skipped
    } else if match extension_spec(name) {
        Some(e) => is_zip_ext(e),
        None => false,
    } {
        EntryKind::Archive
    } else {
        EntryKind::File
    }
}

/// Sorts a directory entry into what the walk does with it.
pub fn entry_kind(name: &str, is_dir: bool, is_file: bool, exclude_extensions: &Vec<String>) -> (r: EntryKind)
    ensures
        r == entry_kind_spec(name@, is_dir, is_file, exclude_extensions@),
{
    if is_dir {
        EntryKind::Directory
    } else if !is_file || should_skip_file(name, exclude_extensions) {
        EntryKind::Skipped
    } else if is_zip_file(name) {
        EntryKind::Archive
    } else {
        EntryKind::File
    }
}

} // verus!
