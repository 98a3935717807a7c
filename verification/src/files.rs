//! The files in the working folder.
use vstd::prelude::*;

use crate::order::{
    law_order_goes_by_code_points, law_order_of_a_list, lemma_order_of_values, put_in_order,
    sort_by_text,
};
use crate::paths::InDir;
use crate::text::{failed, lowercase, lowers_ascii};

verus! {

/// Whether a text is taken for the bare name of a file: it is not empty, it holds no separator, no
/// colon (which would end the name of a drive) and no two dots in a row, and it is not a single dot.
pub open spec fn is_safe_name(name: Seq<char>) -> bool {
    &&& name.len() > 0
    &&& forall|i: int|
        0 <= i < name.len() ==> #[trigger] name[i] != '/' && name[i] != '\\' && name[i] != ':'
    &&& forall|i: int|
        0 <= i < name.len() - 1 ==> !(#[trigger] name[i] == '.' && name[i + 1] == '.')
    &&& name != seq!['.']
}

/// Lets the bare name of a file pass and rejects anything else, a path on another drive included, so
/// that no name leads out of its folder.
pub fn safe_name(name: &str) -> (r: Result<&str, String>)
    ensures
        match r {
            Ok(n) => is_safe_name(name@) && n@ == name@,
            Err(e) => !is_safe_name(name@) && e@ == "invalid file name"@,
        },
{
    let mut bad = name.is_empty();
    let mut after_dot = false;
    let mut dots_only = true;
    let len: usize = name.unicode_len();
    for c in it: name.chars()
        invariant
            it.seq() == name@,
            len == name@.len(),
            after_dot == (it.index() > 0 && name@[it.index() - 1] == '.'),
            bad == (name@.len() == 0 || exists|i: int|
                #![trigger name@[i]]
                0 <= i < it.index() && (name@[i] == '/' || name@[i] == '\\' || name@[i] == ':' || (i
                    > 0 && name@[i] == '.' && name@[i - 1] == '.'))),
            dots_only == (forall|i: int| 0 <= i < it.index() ==> #[trigger] name@[i] == '.'),
    {
        if c == '/' || c == '\\' || c == ':' || (c == '.' && after_dot) {
            assert(name@[it.index()] == c);
            bad = true;
        }
        if c != '.' {
            assert(name@[it.index()] == c);
            dots_only = false;
        }
        after_dot = c == '.';
    }
    let lone_dot = len == 1 && dots_only;
    assert(lone_dot == (name@ =~= seq!['.'])) by {
        if lone_dot {
            assert(name@[0] == '.');
        }
    }
    if bad || lone_dot {
        return Err("invalid file name".to_string());
    }
    Ok(name)
}

/// The two characters that part a path into its components.
pub open spec fn is_separator(c: char) -> bool {
    c == '/' || c == '\\'
}

/// A path parted at its separators.
pub open spec fn components(path: Seq<char>) -> Seq<Seq<char>>
    decreases path.len(),
{
    if path.len() == 0 {
        seq![Seq::empty()]
    } else {
        let before = components(path.drop_last());
        if is_separator(path.last()) {
            before.push(Seq::empty())
        } else {
            before.drop_last().push(before.last().push(path.last()))
        }
    }
}

proof fn lemma_components_of_name(dir: Seq<char>, separator: char, name: Seq<char>)
    requires
        is_separator(separator),
        forall|i: int| 0 <= i < name.len() ==> !is_separator(#[trigger] name[i]),
    ensures
        components(dir.push(separator) + name) == components(dir).push(name),
    decreases name.len(),
{
    let path = dir.push(separator) + name;
    if name.len() == 0 {
        assert(path =~= dir.push(separator));
        assert(path.drop_last() =~= dir);
        assert(name =~= Seq::<char>::empty());
    } else {
        assert(path.drop_last() =~= dir.push(separator) + name.drop_last());
        assert forall|i: int| 0 <= i < name.drop_last().len() implies !is_separator(
            #[trigger] name.drop_last()[i],
        ) by {
            assert(!is_separator(name[i]));
        }
        lemma_components_of_name(dir, separator, name.drop_last());
        assert(!is_separator(name[name.len() - 1]));
        let before = components(dir).push(name.drop_last());
        assert(before.drop_last() =~= components(dir));
        assert(name.drop_last().push(name.last()) =~= name);
    }
}

/// No name that passes leads out of its folder: in the path made of a folder, a separator and the
/// name, the name is one component below those of the folder, it is neither of the two that stand for
/// the folder itself and the one above it, and it holds no colon, so it names no drive.
pub proof fn law_safe_names_stay_in_their_folder(dir: Seq<char>, separator: char, name: Seq<char>)
    requires
        is_safe_name(name),
        is_separator(separator),
    ensures
        components(dir.push(separator) + name) == components(dir).push(name),
        name.len() > 0,
        name != seq!['.'],
        name != seq!['.', '.'],
        !name.contains(':'),
{
    lemma_components_of_name(dir, separator, name);
    if name == seq!['.', '.'] {
        assert(name[0] == '.' && name[1] == '.');
    }
}

/// The file that is to be deleted: the folder's own error comes first, and then only a safe name
/// names a file in it.
pub fn delete_file<D>(dir: Result<D, String>, name: String) -> (r: Result<InDir<D>, String>)
    ensures
        match dir {
            Err(e) => failed(r, e@),
            Ok(d) => if is_safe_name(name@) {
                r matches Ok(path) && path.dir == d && path.name@ == name@
            } else {
                failed(r, "invalid file name"@)
            },
        },
{
    match dir {
        Err(e) => Err(e),
        Ok(dir) => match safe_name(name.as_str()) {
            Ok(safe) => Ok(InDir { dir, name: safe.to_string() }),
            Err(e) => Err(e),
        },
    }
}

/// Something found in the working folder.
#[derive(Debug)]
pub struct FoundEntry {
    pub name: String,
    pub is_file: bool,
    pub size: u64,
}

/// A file in the working folder.
#[derive(Debug)]
pub struct FileEntry {
    pub name: String,
    pub size: u64,
}

/// The files among what was found, in the order found.
pub open spec fn files_among(found: Seq<FoundEntry>) -> Seq<FileEntry> {
    found.filter(|f: FoundEntry| f.is_file).map_values(
        |f: FoundEntry| FileEntry { name: f.name, size: f.size },
    )
}

proof fn lemma_files_among_push(found: Seq<FoundEntry>, f: FoundEntry)
    ensures
        files_among(found.push(f)) == (if f.is_file {
            files_among(found).push(FileEntry { name: f.name, size: f.size })
        } else {
            files_among(found)
        }),
{
    reveal(Seq::filter);
    assert(found.push(f).drop_last() =~= found);
    assert(files_among(found.push(f)) =~= (if f.is_file {
        files_among(found).push(FileEntry { name: f.name, size: f.size })
    } else {
        files_among(found)
    }));
}

/// Lists the files among what was found, in the order of their names in lower case; files whose
/// names differ in case alone stay in the order that they were found in.
pub fn list_files(found: Vec<FoundEntry>) -> (files: Vec<FileEntry>)
    ensures
        put_in_order(files_among(found@), files@, |f: FileEntry| lowercase(f.name@)),
        forall|i: int| 0 <= i < files@.len() ==> lowers_ascii((#[trigger] files@[i]).name@),
{
    let ghost all = found@;
    let ghost value = |p: (String, FileEntry)| p.1;
    let ghost key = |p: (String, FileEntry)| p.0@;
    let ghost name_key = |f: FileEntry| lowercase(f.name@);
    let ghost mut done: int = 0;
    let mut found = found;
    let mut keyed: Vec<(String, FileEntry)> = Vec::new();
    proof {
        reveal(Seq::filter);
        assert(all.take(0) =~= Seq::<FoundEntry>::empty());
        assert(keyed@.map_values(value) =~= files_among(all.take(0)));
        assert(all.skip(0) =~= all);
    }
    while found.len() > 0
        invariant
            0 <= done <= all.len(),
            found@ == all.skip(done),
            value == (|p: (String, FileEntry)| p.1),
            keyed@.map_values(value) == files_among(all.take(done)),
            forall|i: int|
                0 <= i < keyed@.len() ==> (#[trigger] keyed@[i]).0@ == lowercase(keyed@[i].1.name@)
                    && lowers_ascii(keyed@[i].1.name@),
        decreases found.len(),
    {
        let f = found.remove(0);
        let ghost before = keyed@;
        proof {
            lemma_files_among_push(all.take(done), f);
            assert(all.take(done + 1) =~= all.take(done).push(f));
            assert(all.skip(done + 1) =~= all.skip(done).remove(0));
        }
        if f.is_file {
            let lower = f.name.as_str().to_lowercase();
            keyed.push((lower, FileEntry { name: f.name, size: f.size }));
            assert(keyed@.map_values(value) =~= before.map_values(value).push(
                FileEntry { name: f.name, size: f.size },
            ));
        }
        proof {
            done = done + 1;
        }
    }
    assert(all.take(done) =~= all);
    let ghost unsorted = keyed@;
    let mut sorted = sort_by_text(keyed);
    proof {
        assert(put_in_order(unsorted, sorted@, key));
        lemma_order_of_values(unsorted, sorted@, value, key, name_key);
        assert forall|i: int| 0 <= i < sorted@.len() implies lowers_ascii(
            (#[trigger] sorted@[i]).1.name@,
        ) by {
            vstd::seq_lib::to_multiset_contains(sorted@, sorted@[i]);
            vstd::seq_lib::to_multiset_contains(unsorted, sorted@[i]);
            assert(sorted@.contains(sorted@[i]));
            assert(unsorted[unsorted.index_of(sorted@[i])] == sorted@[i]);
        }
    }
    let ghost in_turn = sorted@;
    let ghost mut given: int = 0;
    let mut files: Vec<FileEntry> = Vec::new();
    proof {
        assert(in_turn.skip(0) =~= in_turn);
        assert(files@ =~= in_turn.take(0).map_values(value));
    }
    while sorted.len() > 0
        invariant
            0 <= given <= in_turn.len(),
            sorted@ == in_turn.skip(given),
            value == (|p: (String, FileEntry)| p.1),
            files@ == in_turn.take(given).map_values(value),
        decreases sorted.len(),
    {
        let (_, file) = sorted.remove(0);
        files.push(file);
        proof {
            assert(in_turn.skip(given + 1) =~= in_turn.skip(given).remove(0));
            assert(in_turn.take(given + 1).map_values(value) =~= in_turn.take(given).map_values(
                value,
            ).push(file));
            given = given + 1;
        }
    }
    assert(in_turn.take(given) =~= in_turn);
    assert forall|i: int| 0 <= i < files@.len() implies lowers_ascii(
        (#[trigger] files@[i]).name@,
    ) by {
        assert(files@[i] == in_turn[i].1);
    }
    files
}

/// Every bare name passes, and nothing else does: a name passes just if it is not empty and not a
/// dot, has no separator and no colon, and has no two dots in a row, whatever is around them.
pub proof fn law_bare_names_alone_pass(name: Seq<char>)
    ensures
        is_safe_name(name) <==> {
            let dots = seq!['.', '.'];
            &&& name.len() > 0
            &&& !name.contains('/')
            &&& !name.contains('\\')
            &&& !name.contains(':')
            &&& name != seq!['.']
            &&& forall|a: Seq<char>, b: Seq<char>| name != #[trigger] (a + dots + b)
        },
{
    let dots = seq!['.', '.'];
    if is_safe_name(name) {
        assert forall|a: Seq<char>, b: Seq<char>| name != #[trigger] (a + dots + b) by {
            let n = a.len() as int;
            let s = a + dots + b;
            assert(s[n] == '.' && s[n + 1] == '.');
        }
    } else if name.len() > 0 && !name.contains('/') && !name.contains('\\') && !name.contains(':')
        && name != seq!['.'] {
        assert forall|i: int| 0 <= i < name.len() implies #[trigger] name[i] != '/' && name[i]
            != '\\' && name[i] != ':' by {
            assert(name.contains(name[i]));
        }
        let i = choose|i: int|
            0 <= i < name.len() - 1 && #[trigger] name[i] == '.' && name[i + 1] == '.';
        assert(name =~= name.take(i) + dots + name.skip(i + 2));
    }
}

/// The files among what was found are picked one by one: a file with its name and size, and nothing
/// of what is none.
pub proof fn law_files_are_picked_one_by_one(
    a: Seq<FoundEntry>,
    b: Seq<FoundEntry>,
    entry: FoundEntry,
)
    ensures
        files_among(a + b) == files_among(a) + files_among(b),
        entry.is_file ==> files_among(seq![entry]) == seq![
            FileEntry { name: entry.name, size: entry.size },
        ],
        !entry.is_file ==> files_among(seq![entry]) == Seq::<FileEntry>::empty(),
        files_among(Seq::empty()) == Seq::<FileEntry>::empty(),
{
    reveal(Seq::filter);
    assert(files_among(Seq::empty()) =~= Seq::<FileEntry>::empty());
    Seq::filter_distributes_over_add(a, b, |f: FoundEntry| f.is_file);
    assert(files_among(a + b) =~= files_among(a) + files_among(b));
    lemma_files_among_push(Seq::empty(), entry);
    assert(Seq::<FoundEntry>::empty().push(entry) =~= seq![entry]);
    assert(Seq::<FileEntry>::empty().push(FileEntry { name: entry.name, size: entry.size }) =~= seq![
        FileEntry { name: entry.name, size: entry.size },
    ]);
}

/// Files are listed by their names in lower case: of two listed files whose names in lower case begin
/// alike, the one that goes on with the lower character stands first.
pub proof fn law_files_stand_by_their_names(
    found: Seq<FoundEntry>,
    files: Seq<FileEntry>,
    i: int,
    j: int,
    common: Seq<char>,
    c: char,
    d: char,
    s: Seq<char>,
    t: Seq<char>,
)
    requires
        put_in_order(files_among(found), files, |f: FileEntry| lowercase(f.name@)),
        0 <= i < files.len(),
        0 <= j < files.len(),
        lowercase(files[i].name@) == common.push(c) + s,
        lowercase(files[j].name@) == common.push(d) + t,
        (c as u32) < (d as u32),
    ensures
        i < j,
        files.to_multiset() == files_among(found).to_multiset(),
{
    let key = |f: FileEntry| lowercase(f.name@);
    law_order_goes_by_code_points(common, c, d, s, t);
    law_order_of_a_list(files_among(found), files, key, i, j, common);
}

} // verus!
