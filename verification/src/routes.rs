//! The route table: which file serves which request path.
//!
//! The table is built once from a listing of the folders under the content
//! root and never changes afterwards.

use crate::text::{contains_char, str_eq};
use vstd::hash_map::StringHashMap;
use vstd::prelude::*;
use vstd::string::*;

verus! {

/// One file found in a scanned folder.
#[derive(Debug)]
pub struct ScannedFile {
    /// The file's name, without any directory.
    pub name: String,
    /// A path under which the file can be opened.
    pub path: String,
}

/// One entry of the content root, with the files found directly in it. An
/// entry that could not be listed has no files.
#[derive(Debug)]
pub struct ScannedFolder {
    pub name: String,
    pub files: Vec<ScannedFile>,
}

/// Whether a folder of this name is skipped: the source and build folders,
/// and every name with a dot in it.
pub open spec fn is_reserved(folder_name: Seq<char>) -> bool {
    folder_name == "src"@ || folder_name == "target"@ || folder_name.contains('.')
}

/// The request path under which a file of this name is served.
pub open spec fn route_key(file_name: Seq<char>) -> Seq<char> {
    seq!['/'] + file_name
}

/// `table` after the files of one folder were registered in order, a later
/// file replacing an earlier one of the same name.
pub open spec fn with_files(table: Map<Seq<char>, Seq<char>>, files: Seq<ScannedFile>) -> Map<
    Seq<char>,
    Seq<char>,
>
    decreases files.len(),
{
    if files.len() == 0 {
        table
    } else {
        with_files(table, files.drop_last()).insert(
            route_key(files.last().name@),
            files.last().path@,
        )
    }
}

/// `table` after the folders were visited in order, reserved ones skipped.
pub open spec fn with_folders(
    table: Map<Seq<char>, Seq<char>>,
    folders: Seq<ScannedFolder>,
) -> Map<Seq<char>, Seq<char>>
    decreases folders.len(),
{
    if folders.len() == 0 {
        table
    } else {
        let before = with_folders(table, folders.drop_last());
        if is_reserved(folders.last().name@) {
            before
        } else {
            with_files(before, folders.last().files@)
        }
    }
}

/// The route table that a listing gives rise to.
pub open spec fn route_table(folders: Seq<ScannedFolder>) -> Map<Seq<char>, Seq<char>> {
    with_folders(Map::empty(), folders)
}

/// Whether the file at `(folder, file)` of the listing is one that gets
/// registered.
pub open spec fn is_listed(folders: Seq<ScannedFolder>, folder: int, file: int) -> bool {
    &&& 0 <= folder < folders.len()
    &&& !is_reserved(folders[folder].name@)
    &&& 0 <= file < folders[folder].files.len()
}

/// Whether `(f1, g1)` comes before `(f2, g2)` in scanning order.
pub open spec fn scanned_before(f1: int, g1: int, f2: int, g2: int) -> bool {
    f1 < f2 || (f1 == f2 && g1 < g2)
}

/// A file name can be read back from its route key.
pub proof fn lemma_route_key_injective(a: Seq<char>, b: Seq<char>)
    ensures
        route_key(a).len() == a.len() + 1,
        route_key(a)[0] == '/',
        route_key(a) == route_key(b) <==> a == b,
{
    assert(route_key(a).skip(1) == a);
    assert(route_key(b).skip(1) == b);
}

/// Registering files adds their keys to the table and removes none.
proof fn lemma_with_files_keys(table: Map<Seq<char>, Seq<char>>, files: Seq<ScannedFile>, key: Seq<char>)
    ensures
        with_files(table, files).contains_key(key) <==> table.contains_key(key) || exists|g: int|
            0 <= g < files.len() && key == route_key(#[trigger] files[g].name@),
    decreases files.len(),
{
    if files.len() > 0 {
        let front = files.drop_last();
        lemma_with_files_keys(table, front, key);
        if exists|g: int| 0 <= g < front.len() && key == route_key(#[trigger] front[g].name@) {
            let g = choose|g: int| 0 <= g < front.len() && key == route_key(#[trigger] front[g].name@);
            assert(key == route_key(files[g].name@));
        }
        if exists|g: int| 0 <= g < files.len() && key == route_key(#[trigger] files[g].name@) {
            let g = choose|g: int| 0 <= g < files.len() && key == route_key(#[trigger] files[g].name@);
            if g < front.len() {
                assert(key == route_key(front[g].name@));
            }
        }
    }
}

/// Registering files leaves every key that none of them has as it was.
proof fn lemma_with_files_keeps(table: Map<Seq<char>, Seq<char>>, files: Seq<ScannedFile>, key: Seq<char>)
    requires
        forall|g: int| 0 <= g < files.len() ==> key != route_key(#[trigger] files[g].name@),
    ensures
        with_files(table, files).contains_key(key) == table.contains_key(key),
        with_files(table, files)[key] == table[key],
    decreases files.len(),
{
    if files.len() > 0 {
        let front = files.drop_last();
        assert forall|g: int| 0 <= g < front.len() implies key != route_key(
            #[trigger] front[g].name@,
        ) by {
            assert(front[g] == files[g]);
        }
        lemma_with_files_keeps(table, front, key);
        assert(key != route_key(files[files.len() - 1].name@));
    }
}

/// Of the files of one folder that share a name, the last one is served.
proof fn lemma_with_files_last_wins(table: Map<Seq<char>, Seq<char>>, files: Seq<ScannedFile>, g: int)
    requires
        0 <= g < files.len(),
        forall|h: int| g < h < files.len() ==> #[trigger] files[h].name@ != files[g].name@,
    ensures
        with_files(table, files).contains_key(route_key(files[g].name@)),
        with_files(table, files)[route_key(files[g].name@)] == files[g].path@,
    decreases files.len(),
{
    if g < files.len() - 1 {
        let front = files.drop_last();
        assert forall|h: int| g < h < front.len() implies #[trigger] front[h].name@
            != front[g].name@ by {
            assert(front[h] == files[h]);
        }
        lemma_with_files_last_wins(table, front, g);
        lemma_route_key_injective(files.last().name@, files[g].name@);
    }
}

/// A request path is registered exactly when some file of a folder that is
/// not reserved has the name that follows its leading `/`.
pub proof fn lemma_registered_iff_listed(folders: Seq<ScannedFolder>, key: Seq<char>)
    ensures
        route_table(folders).contains_key(key) <==> exists|f: int, g: int| #[trigger]
            is_listed(folders, f, g) && key == route_key(folders[f].files[g].name@),
    decreases folders.len(),
{
    if folders.len() > 0 {
        let front = folders.drop_last();
        let last = folders.last();
        let n = front.len() as int;
        lemma_registered_iff_listed(front, key);
        lemma_with_files_keys(route_table(front), last.files@, key);
        if route_table(folders).contains_key(key) {
            if route_table(front).contains_key(key) {
                let (f, g) = choose|f: int, g: int| #[trigger]
                    is_listed(front, f, g) && key == route_key(front[f].files[g].name@);
                assert(is_listed(folders, f, g));
            } else {
                let g = choose|g: int| 0 <= g < last.files@.len() && key == route_key(
                    #[trigger] last.files@[g].name@,
                );
                assert(is_listed(folders, n, g));
            }
        }
        if exists|f: int, g: int| #[trigger]
            is_listed(folders, f, g) && key == route_key(folders[f].files[g].name@) {
            let (f, g) = choose|f: int, g: int| #[trigger]
                is_listed(folders, f, g) && key == route_key(folders[f].files[g].name@);
            if f < n {
                assert(is_listed(front, f, g));
                assert(front[f] == folders[f]);
            } else {
                assert(key == route_key(last.files@[g].name@));
            }
        }
    }
}

/// Of all registered files that share a name, the one scanned last is
/// served.
pub proof fn lemma_last_scanned_wins(folders: Seq<ScannedFolder>, f: int, g: int)
    requires
        is_listed(folders, f, g),
        forall|f2: int, g2: int| #[trigger]
            is_listed(folders, f2, g2) && scanned_before(f, g, f2, g2)
                ==> folders[f2].files[g2].name@ != folders[f].files[g].name@,
    ensures
        route_table(folders).contains_key(route_key(folders[f].files[g].name@)),
        route_table(folders)[route_key(folders[f].files[g].name@)] == folders[f].files[g].path@,
    decreases folders.len(),
{
    let front = folders.drop_last();
    let last = folders.last();
    let n = front.len() as int;
    let name = folders[f].files[g].name@;
    if f == n {
        assert forall|h: int| g < h < last.files@.len() implies #[trigger] last.files@[h].name@
            != last.files@[g].name@ by {
            assert(is_listed(folders, n, h) && scanned_before(f, g, n, h));
        }
        lemma_with_files_last_wins(route_table(front), last.files@, g);
    } else {
        assert(front[f] == folders[f]);
        assert forall|f2: int, g2: int| #[trigger]
            is_listed(front, f2, g2) && scanned_before(f, g, f2, g2) implies front[f2].files[g2].name@
            != front[f].files[g].name@ by {
            assert(front[f2] == folders[f2]);
            assert(is_listed(folders, f2, g2));
        }
        lemma_last_scanned_wins(front, f, g);
        if !is_reserved(last.name@) {
            assert forall|h: int| 0 <= h < last.files@.len() implies route_key(name) != route_key(
                #[trigger] last.files@[h].name@,
            ) by {
                assert(is_listed(folders, n, h) && scanned_before(f, g, n, h));
                lemma_route_key_injective(name, last.files@[h].name@);
            }
            lemma_with_files_keeps(route_table(front), last.files@, route_key(name));
        }
    }
}

/// Every registered request path begins with `/`.
pub proof fn lemma_keys_are_rooted(folders: Seq<ScannedFolder>, key: Seq<char>)
    requires
        route_table(folders).contains_key(key),
    ensures
        key.len() > 0,
        key[0] == '/',
{
    lemma_registered_iff_listed(folders, key);
    let (f, g) = choose|f: int, g: int| #[trigger]
        is_listed(folders, f, g) && key == route_key(folders[f].files[g].name@);
    lemma_route_key_injective(folders[f].files[g].name@, folders[f].files[g].name@);
}

/// The route table, immutable once built.
pub struct App {
    paths: StringHashMap<String>,
}

impl View for App {
    type V = Map<Seq<char>, Seq<char>>;

    closed spec fn view(&self) -> Map<Seq<char>, Seq<char>> {
        texts(self.paths@)
    }
}

/// The stored table with each file path read as text.
spec fn texts(paths: Map<Seq<char>, String>) -> Map<Seq<char>, Seq<char>> {
    Map::new(|k: Seq<char>| paths.contains_key(k), |k: Seq<char>| paths[k]@)
}

/// Whether a folder of this name is skipped when the table is built.
pub fn is_reserved_folder(name: &str) -> (reserved: bool)
    ensures
        reserved == is_reserved(name@),
{
    str_eq(name, "src") || str_eq(name, "target") || contains_char(name, '.')
}

impl App {
    /// Every registered request path begins with `/`.
    #[verifier::type_invariant]
    spec fn keys_are_rooted(&self) -> bool {
        forall|k: Seq<char>| #[trigger] self.paths@.contains_key(k) ==> k.len() > 0 && k[0] == '/'
    }

    /// Builds the table from a listing: every file of every folder that is
    /// not reserved is registered under `/` followed by its name, in listing
    /// order, so that of two files with one name the later one is served.
    pub fn new(folders: &Vec<ScannedFolder>) -> (app: App)
        ensures
            app@ == route_table(folders@),
    {
        let mut paths: StringHashMap<String> = StringHashMap::new();
        let mut f: usize = 0;
        assert(texts(paths@) =~= route_table(folders@.take(0)));
        while f < folders.len()
            invariant
                f <= folders.len(),
                texts(paths@) == route_table(folders@.take(f as int)),
            decreases folders.len() - f,
        {
            let folder = &folders[f];
            let ghost before = texts(paths@);
            assert(folders@.take(f + 1).drop_last() == folders@.take(f as int));
            if !is_reserved_folder(folder.name.as_str()) {
                let mut g: usize = 0;
                assert(folder.files@.take(0) == Seq::<ScannedFile>::empty());
                while g < folder.files.len()
                    invariant
                        g <= folder.files.len(),
                        texts(paths@) == with_files(before, folder.files@.take(g as int)),
                    decreases folder.files.len() - g,
                {
                    let file = &folder.files[g];
                    let mut key = String::from_str("/");
                    key.append(file.name.as_str());
                    proof {
                        reveal_strlit("/");
                        assert(key@ == route_key(file.name@));
                        assert(folder.files@.take(g + 1).drop_last() == folder.files@.take(
                            g as int,
                        ));
                    }
                    let ghost earlier = paths@;
                    let path = file.path.clone();
                    paths.insert(key, path);
                    assert(texts(paths@) =~= texts(earlier).insert(key@, path@));
                    g = g + 1;
                }
                assert(folder.files@.take(g as int) == folder.files@);
            }
            f = f + 1;
        }
        proof {
            assert(folders@.take(f as int) == folders@);
            assert forall|k: Seq<char>| #[trigger] paths@.contains_key(k) implies k.len() > 0
                && k[0] == '/' by {
                assert(texts(paths@).contains_key(k));
                lemma_keys_are_rooted(folders@, k);
            }
        }
        App { paths }
    }

    /// Looks up the file that serves `path`, if any is registered for it.
    /// Only a path that begins with `/` can be.
    pub fn resolve(&self, path: &str) -> (file: Option<&str>)
        ensures
            match file {
                Some(backing) => self@.contains_key(path@) && backing@ == self@[path@],
                None => !self@.contains_key(path@),
            },
            file is Some ==> path@.len() > 0 && path@[0] == '/',
    {
        proof {
            use_type_invariant(self);
        }
        match self.paths.get(path) {
            Some(backing) => Some(backing.as_str()),
            None => None,
        }
    }
}

} // verus!
