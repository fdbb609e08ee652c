use vstd::prelude::*;

verus! {

/// One expected file of a game: its name, size and the hashes the catalog declares.
#[derive(Debug)]
pub struct Rom {
    pub name: String,
    pub size: i64,
    pub crc: Option<String>,
    pub md5: Option<String>,
    pub sha1: Option<String>,
}

/// A catalog entry: a named game that owns its roms, in declaration order.
#[derive(Debug)]
pub struct Game {
    pub name: String,
    pub description: String,
    pub roms: Vec<Rom>,
}

/// The descriptive header of a catalog document.
#[derive(Debug)]
pub struct Header {
    pub name: String,
    pub description: String,
    pub version: String,
}

/// A catalog as it comes out of an imported document.
#[derive(Debug)]
pub struct DataFile {
    pub header: Header,
    pub games: Vec<Game>,
}

/// How a scanned file relates to the catalog.
#[derive(Clone, Copy, Debug, PartialEq, Eq, Structural)]
pub enum MatchType {
    /// Name and hash both match a rom.
    Exact,
    /// The hash matches a rom whose name differs from the file's.
    Partial,
    /// No rom has the file's hash.
    Miss,
}

/// The hash algorithm a scan or an index works with.
#[derive(Clone, Copy, Debug, PartialEq, Eq, Structural)]
pub enum HashType {
    Crc,
    Md5,
    Sha1,
}

/// The stored result of scanning one file (or one archive member).
#[derive(Debug)]
pub struct ScannedFile {
    pub base_path: String,
    pub path: String,
    pub hash: String,
    pub hash_type: HashType,
    pub match_type: MatchType,
    pub game_name: Option<String>,
    pub rom_name: Option<String>,
}

/// A rom as plain values.
pub struct RomView {
    pub name: Seq<char>,
    pub size: i64,
    pub crc: Option<Seq<char>>,
    pub md5: Option<Seq<char>>,
    pub sha1: Option<Seq<char>>,
}

/// A game as plain values.
pub struct GameView {
    pub name: Seq<char>,
    pub description: Seq<char>,
    pub roms: Seq<RomView>,
}

/// A file record as plain values.
pub struct FileView {
    pub base_path: Seq<char>,
    pub path: Seq<char>,
    pub hash: Seq<char>,
    pub hash_type: HashType,
    pub match_type: MatchType,
    pub game_name: Option<Seq<char>>,
    pub rom_name: Option<Seq<char>>,
}

/// An optional string as an optional sequence of characters.
pub open spec fn opt_view(o: Option<String>) -> Option<Seq<char>> {
    match o {
        Some(s) => Some(s@),
        None => None,
    }
}

impl View for Rom {
    type V = RomView;

    open spec fn view(&self) -> RomView {
        RomView {
            name: self.name@,
            size: self.size,
            crc: opt_view(self.crc),
            md5: opt_view(self.md5),
            sha1: opt_view(self.sha1),
        }
    }
}

/// Roms as plain values, in order.
pub open spec fn roms_view(roms: Seq<Rom>) -> Seq<RomView> {
    roms.map_values(|r: Rom| r@)
}

impl View for Game {
    type V = GameView;

    open spec fn view(&self) -> GameView {
        GameView { name: self.name@, description: self.description@, roms: roms_view(self.roms@) }
    }
}

/// Games as plain values, in order.
pub open spec fn games_view(games: Seq<Game>) -> Seq<GameView> {
    games.map_values(|g: Game| g@)
}

impl View for ScannedFile {
    type V = FileView;

    open spec fn view(&self) -> FileView {
        FileView {
            base_path: self.base_path@,
            path: self.path@,
            hash: self.hash@,
            hash_type: self.hash_type,
            match_type: self.match_type,
            game_name: opt_view(self.game_name),
            rom_name: opt_view(self.rom_name),
        }
    }
}

/// File records as plain values, in order.
pub open spec fn files_view(files: Seq<ScannedFile>) -> Seq<FileView> {
    files.map_values(|f: ScannedFile| f@)
}

/// The hash of the given algorithm that a rom declares, if any.
pub open spec fn rom_hash(r: RomView, t: HashType) -> Option<Seq<char>> {
    match t {
        HashType::Crc => r.crc,
        HashType::Md5 => r.md5,
        HashType::Sha1 => r.sha1,
    }
}

/// The invariant of a stored file record: a game and rom name are present
/// exactly when the file matched something.
pub open spec fn file_record_wf(f: FileView) -> bool {
    match f.match_type {
        MatchType::Miss => f.game_name.is_none() && f.rom_name.is_none(),
        _ => f.game_name.is_some() && f.rom_name.is_some(),
    }
}

/// Copies an optional string.
pub fn clone_opt_string(o: &Option<String>) -> (r: Option<String>)
    ensures
        r == *o,
{
    match o {
        Some(s) => Some(s.clone()),
        None => None,
    }
}

impl Clone for Rom {
    fn clone(&self) -> (r: Self)
        ensures
            r == *self,
    {
        Rom {
            name: self.name.clone(),
            size: self.size,
            crc: clone_opt_string(&self.crc),
            md5: clone_opt_string(&self.md5),
            sha1: clone_opt_string(&self.sha1),
        }
    }
}

/// Copies a list of roms element by element.
pub fn clone_roms(roms: &Vec<Rom>) -> (r: Vec<Rom>)
    ensures
        r@ == roms@,
{
    let mut out: Vec<Rom> = Vec::new();
    let mut i: usize = 0;
    while i < roms.len()
        invariant
            i <= roms@.len(),
            out@ == roms@.subrange(0, i as int),
        decreases roms@.len() - i,
    {
        out.push(roms[i].clone());
        i = i + 1;
    }
    assert(out@ =~= roms@);
    out
}

impl Clone for Game {
    fn clone(&self) -> (r: Self)
        ensures
            r@ == self@,
            r.name == self.name,
            r.roms@ == self.roms@,
    {
        Game {
            name: self.name.clone(),
            description: self.description.clone(),
            roms: clone_roms(&self.roms),
        }
    }
}

impl Clone for Header {
    fn clone(&self) -> (r: Self)
        ensures
            r == *self,
    {
        Header {
            name: self.name.clone(),
            description: self.description.clone(),
            version: self.version.clone(),
        }
    }
}

impl Clone for ScannedFile {
    fn clone(&self) -> (r: Self)
        ensures
            r == *self,
    {
        ScannedFile {
            base_path: self.base_path.clone(),
            path: self.path.clone(),
            hash: self.hash.clone(),
            hash_type: self.hash_type,
            match_type: self.match_type,
            game_name: clone_opt_string(&self.game_name),
            rom_name: clone_opt_string(&self.rom_name),
        }
    }
}

} // verus!
