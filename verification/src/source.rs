//! The mounted configuration: what is in it, what is copied out of it and
//! what is applied.

use vstd::prelude::*;
use vstd::utf8::{decode_utf8, valid_utf8};
use crate::order::{
    in_order, key_views, law_order_is_sorted, law_order_is_that_of_dictionaries, lex_le, order,
    parts_below, positions,
};
use crate::outside::{decodes, from_utf8_lossy, utf8_lossy};
use crate::text::{cat, cat3, chars_of, texts};

verus! {

/// Whether there is nothing to sync: the directory could not be read, which
/// is `None`, or it has no entry.
pub fn is_empty_source(has_entry: Option<bool>) -> (r: bool)
    ensures
        r == (has_entry != Some(true)),
{
    match has_entry {
        Some(found) => !found,
        None => true,
    }
}

/// The numbers of the characters of a text.
pub open spec fn char_codes(s: Seq<char>) -> Seq<u32> {
    Seq::new(s.len(), |i: int| s[i] as u32)
}

/// The numbers of some bytes.
pub open spec fn byte_codes(s: Seq<u8>) -> Seq<u32> {
    Seq::new(s.len(), |i: int| s[i] as u32)
}

/// File names as texts.
pub open spec fn name_texts(names: Seq<Vec<u8>>) -> Seq<Seq<char>> {
    Seq::new(names.len(), |i: int| utf8_lossy(names[i]@))
}

/// Texts in the order of dictionaries, by the numbers of their characters.
pub open spec fn sorted_texts(t: Seq<Seq<char>>) -> Seq<Seq<char>> {
    let keys = Seq::new(t.len(), |i: int| char_codes(t[i]));
    Seq::new(t.len(), |i: int| t[in_order(keys)[i]])
}

/// The numbers of the characters of a text.
pub fn codes_of(s: &str) -> (r: Vec<u32>)
    ensures
        r@ == char_codes(s@),
{
    let chars = chars_of(s);
    let mut out: Vec<u32> = Vec::new();
    let mut i: usize = 0;
    while i < chars.len()
        invariant
            chars@ == s@,
            i <= chars.len(),
            out@ == char_codes(s@).take(i as int),
        decreases chars.len() - i,
    {
        out.push(chars[i] as u32);
        i += 1;
    }
    out
}

fn codes_of_bytes(s: &Vec<u8>) -> (r: Vec<u32>)
    ensures
        r@ == byte_codes(s@),
{
    let mut out: Vec<u32> = Vec::new();
    let mut i: usize = 0;
    while i < s.len()
        invariant
            i <= s.len(),
            out@ == byte_codes(s@).take(i as int),
        decreases s.len() - i,
    {
        out.push(s[i] as u32);
        i += 1;
    }
    out
}

/// Whether each of some names, if it is UTF-8, is made the text that it
/// encodes.
pub open spec fn names_decode(names: Seq<Vec<u8>>) -> bool {
    forall|i: int| 0 <= i < names.len() ==> decodes((#[trigger] names[i])@)
}

/// The texts that names encode.
pub open spec fn decoded_names(names: Seq<Vec<u8>>) -> Seq<Seq<char>> {
    Seq::new(names.len(), |i: int| decode_utf8(names[i]@))
}

/// The names of the files in a directory, as texts and in order.
pub fn list_names(names: &Vec<Vec<u8>>) -> (r: Vec<String>)
    ensures
        texts(r@) == sorted_texts(name_texts(names@)),
        names_decode(names@),
        (forall|i: int| 0 <= i < names.len() ==> valid_utf8((#[trigger] names@[i])@)) ==> texts(r@)
            == sorted_texts(decoded_names(names@)),
{
    let mut all: Vec<String> = Vec::new();
    let mut keys: Vec<Vec<u32>> = Vec::new();
    let mut i: usize = 0;
    let ghost ts = name_texts(names@);
    while i < names.len()
        invariant
            i <= names.len(),
            ts == name_texts(names@),
            all.len() == i,
            keys.len() == i,
            forall|j: int| 0 <= j < i ==> (#[trigger] all@[j])@ == ts[j],
            forall|j: int| 0 <= j < i ==> (#[trigger] keys@[j])@ == char_codes(ts[j]),
            forall|j: int| 0 <= j < i ==> decodes((#[trigger] names@[j])@),
        decreases names.len() - i,
    {
        let name = from_utf8_lossy(names[i].as_slice());
        keys.push(codes_of(name.as_str()));
        all.push(name);
        i += 1;
    }
    let ord = order(&keys);
    let ghost ks = Seq::new(ts.len(), |j: int| char_codes(ts[j]));
    proof {
        assert(key_views(keys@) =~= ks);
    }
    let mut out: Vec<String> = Vec::new();
    let mut k: usize = 0;
    while k < ord.len()
        invariant
            k <= ord.len(),
            ord.len() == all.len(),
            all.len() == ts.len(),
            forall|j: int| 0 <= j < all.len() ==> (#[trigger] all@[j])@ == ts[j],
            forall|j: int| 0 <= j < ord.len() ==> (#[trigger] ord@[j]) < all.len(),
            positions(ord@) == in_order(ks),
            ks == Seq::new(ts.len(), |j: int| char_codes(ts[j])),
            out.len() == k,
            forall|j: int| 0 <= j < k ==> (#[trigger] out@[j])@ == ts[in_order(ks)[j]],
        decreases ord.len() - k,
    {
        proof {
            assert(positions(ord@)[k as int] == ord@[k as int]);
        }
        out.push(all[ord[k]].clone());
        k += 1;
    }
    proof {
        assert(texts(out@) =~= sorted_texts(ts));
        if forall|i: int| 0 <= i < names.len() ==> valid_utf8((#[trigger] names@[i])@) {
            assert(ts =~= decoded_names(names@));
        }
    }
    out
}

/// Whether two files could both be read and hold the same.
pub fn files_equal(a: &Option<Vec<u8>>, b: &Option<Vec<u8>>) -> (r: bool)
    ensures
        r == (a is Some && b is Some && a.unwrap()@ == b.unwrap()@),
{
    match (a, b) {
        (Some(x), Some(y)) => same_bytes(x.as_slice(), y.as_slice()),
        _ => false,
    }
}

fn same_bytes(a: &[u8], b: &[u8]) -> (r: bool)
    ensures
        r == (a@ == b@),
{
    if a.len() != b.len() {
        return false;
    }
    let mut i: usize = 0;
    while i < a.len()
        invariant
            i <= a.len(),
            a.len() == b.len(),
            forall|j: int| 0 <= j < i ==> a@[j] == b@[j],
        decreases a.len() - i,
    {
        if a[i] != b[i] {
            return false;
        }
        i += 1;
    }
    proof {
        assert(a@ =~= b@);
    }
    true
}

/// The position of the last dot.
pub open spec fn last_dot(name: Seq<u8>) -> Option<int>
    decreases name.len(),
{
    if name.len() == 0 {
        None
    } else if name.last() == 0x2e {
        Some(name.len() - 1)
    } else {
        last_dot(name.drop_last())
    }
}

/// The extension of a file name: what stands behind its last dot, unless that
/// dot is its first character or the name is two dots.
pub open spec fn extension(name: Seq<u8>) -> Option<Seq<u8>> {
    match last_dot(name) {
        Some(p) => if p == 0 || name == seq![0x2eu8, 0x2eu8] {
            None
        } else {
            Some(name.skip(p + 1))
        },
        None => None,
    }
}

fn extension_start(name: &Vec<u8>) -> (r: Option<usize>)
    ensures
        r matches Some(p) ==> p <= name.len() && extension(name@) == Some(name@.skip(p as int)),
        r is None ==> extension(name@) is None,
{
    let mut i: usize = name.len();
    proof {
        assert(name@.take(i as int) =~= name@);
    }
    while i > 0
        invariant
            i <= name.len(),
            last_dot(name@) == last_dot(name@.take(i as int)),
        decreases i,
    {
        proof {
            assert(name@.take(i as int).drop_last() =~= name@.take(i - 1));
            assert(name@.take(i as int).last() == name@[i - 1]);
        }
        if name[i - 1] == 0x2e {
            if i == 1 {
                return None;
            }
            if name.len() == 2 && name[0] == 0x2e && name[1] == 0x2e {
                proof {
                    assert(name@ =~= seq![0x2eu8, 0x2eu8]);
                }
                return None;
            }
            return Some(i);
        }
        i -= 1;
    }
    None
}

/// Whether the extension of a file name is `a` or `b`.
pub fn has_extension(name: &Vec<u8>, a: &[u8], b: &[u8]) -> (r: bool)
    ensures
        r == (extension(name@) == Some(a@) || extension(name@) == Some(b@)),
{
    match extension_start(name) {
        Some(p) => {
            let ext: &[u8] = &name.as_slice()[p..name.len()];
            proof {
                assert(ext@ =~= name@.skip(p as int));
            }
            same_bytes(ext, a) || same_bytes(ext, b)
        },
        None => false,
    }
}

/// An entry of the mounted directory: its name, and whether it leads to a
/// plain file. A mounted ConfigMap holds each file as a symbolic link through
/// a hidden directory, so links are followed.
pub struct SourceEntry {
    pub name: Vec<u8>,
    pub is_file: bool,
}

/// The bytes of `yml` and `yaml`.
pub open spec fn is_yaml(ext: Option<Seq<u8>>) -> bool {
    ext == Some(seq![0x79u8, 0x6du8, 0x6cu8]) || ext == Some(seq![0x79u8, 0x61u8, 0x6du8, 0x6cu8])
}

/// Whether an entry is a document of the network's desired state: a file that
/// is not hidden and that ends in `.yml` or `.yaml`.
pub open spec fn is_statefile(e: SourceEntry) -> bool {
    &&& !(e.name@.len() > 0 && e.name@[0] == 0x2e)
    &&& e.is_file
    &&& is_yaml(extension(e.name@))
}

/// The positions of the entries that are documents of desired state.
pub open spec fn statefiles(entries: Seq<SourceEntry>) -> Seq<int>
    decreases entries.len(),
{
    if entries.len() == 0 {
        seq![]
    } else if is_statefile(entries.last()) {
        statefiles(entries.drop_last()).push(entries.len() - 1)
    } else {
        statefiles(entries.drop_last())
    }
}

/// The positions of the documents of desired state, in the order of their
/// names.
pub open spec fn statefiles_in_order(entries: Seq<SourceEntry>) -> Seq<int> {
    let found = statefiles(entries);
    let keys = Seq::new(found.len(), |i: int| byte_codes(entries[found[i]].name@));
    Seq::new(found.len(), |i: int| found[in_order(keys)[i]])
}

proof fn lemma_statefiles_in_range(entries: Seq<SourceEntry>)
    ensures
        statefiles(entries).len() <= entries.len(),
        forall|i: int|
            0 <= i < statefiles(entries).len() ==> 0 <= #[trigger] statefiles(entries)[i]
                < entries.len(),
    decreases entries.len(),
{
    if entries.len() > 0 {
        lemma_statefiles_in_range(entries.drop_last());
    }
}

fn statefile(e: &SourceEntry) -> (r: bool)
    ensures
        r == is_statefile(*e),
{
    if e.name.len() > 0 && e.name[0] == 0x2e {
        return false;
    }
    let yml: [u8; 3] = [0x79, 0x6d, 0x6c];
    let yaml: [u8; 4] = [0x79, 0x61, 0x6d, 0x6c];
    proof {
        assert(yml@ =~= seq![0x79u8, 0x6du8, 0x6cu8]);
        assert(yaml@ =~= seq![0x79u8, 0x61u8, 0x6du8, 0x6cu8]);
    }
    e.is_file && has_extension(&e.name, yml.as_slice(), yaml.as_slice())
}

/// Finds the documents of desired state among the entries of the mounted
/// directory.
pub fn statefile_paths(entries: &Vec<SourceEntry>) -> (r: Vec<usize>)
    ensures
        positions(r@) == statefiles(entries@),
        forall|i: int| 0 <= i < r.len() ==> (#[trigger] r@[i]) < entries.len(),
{
    let mut out: Vec<usize> = Vec::new();
    let mut i: usize = 0;
    proof {
        assert(positions(out@) =~= statefiles(entries@.take(0)));
    }
    while i < entries.len()
        invariant
            i <= entries.len(),
            positions(out@) == statefiles(entries@.take(i as int)),
            forall|j: int| 0 <= j < out.len() ==> (#[trigger] out@[j]) < entries.len(),
        decreases entries.len() - i,
    {
        proof {
            assert(entries@.take(i + 1).drop_last() =~= entries@.take(i as int));
            assert(entries@.take(i + 1).last() == entries@[i as int]);
        }
        if statefile(&entries[i]) {
            proof {
                assert(positions(out@.push(i)) =~= positions(out@).push(i as int));
            }
            out.push(i);
        }
        i += 1;
    }
    proof {
        assert(entries@.take(i as int) =~= entries@);
    }
    out
}

/// The documents of desired state, in the order in which they are applied.
pub fn statefiles_to_apply(entries: &Vec<SourceEntry>) -> (r: Vec<usize>)
    ensures
        positions(r@) == statefiles_in_order(entries@),
        forall|i: int| 0 <= i < r.len() ==> (#[trigger] r@[i]) < entries.len(),
{
    let found = statefile_paths(entries);
    let mut keys: Vec<Vec<u32>> = Vec::new();
    let mut i: usize = 0;
    while i < found.len()
        invariant
            i <= found.len(),
            forall|j: int| 0 <= j < found.len() ==> (#[trigger] found@[j]) < entries.len(),
            keys.len() == i,
            forall|j: int|
                0 <= j < i ==> (#[trigger] keys@[j])@ == byte_codes(
                    entries@[found@[j] as int].name@,
                ),
        decreases found.len() - i,
    {
        keys.push(codes_of_bytes(&entries[found[i]].name));
        i += 1;
    }
    let ord = order(&keys);
    let ghost fs = statefiles(entries@);
    let ghost ks = Seq::new(fs.len(), |j: int| byte_codes(entries@[fs[j]].name@));
    proof {
        assert forall|j: int| 0 <= j < fs.len() implies key_views(keys@)[j] == #[trigger] ks[j] by {
            assert(positions(found@)[j] == found@[j]);
            assert(key_views(keys@)[j] == keys@[j]@);
        }
        assert(key_views(keys@) =~= ks);
    }
    let mut out: Vec<usize> = Vec::new();
    let mut k: usize = 0;
    while k < ord.len()
        invariant
            k <= ord.len(),
            ord.len() == found.len(),
            fs == positions(found@),
            positions(ord@) == in_order(ks),
            forall|j: int| 0 <= j < found.len() ==> (#[trigger] found@[j]) < entries.len(),
            forall|j: int| 0 <= j < ord.len() ==> (#[trigger] ord@[j]) < found.len(),
            out.len() == k,
            forall|j: int| 0 <= j < k ==> (#[trigger] out@[j]) < entries.len(),
            forall|j: int| 0 <= j < k ==> (#[trigger] out@[j]) as int == fs[in_order(ks)[j]],
        decreases ord.len() - k,
    {
        proof {
            assert(positions(ord@)[k as int] == ord@[k as int]);
            assert(positions(found@)[ord@[k as int] as int] == found@[ord@[k as int] as int]);
        }
        out.push(found[ord[k]]);
        k += 1;
    }
    proof {
        assert(positions(out@) =~= statefiles_in_order(entries@));
    }
    out
}

/// What an entry of the mounted directory is, and what it leads to if it is a
/// link.
#[derive(Clone, Copy, PartialEq, Eq, Structural)]
pub enum EntryKind {
    Directory,
    File,
    LinkToDirectory,
    LinkToFile,
    /// A link to a directory that lies on the way to the link, or to one that
    /// holds such a directory: following it would never end.
    LinkBack,
    Other,
}

/// What staging does with an entry.
#[derive(Clone, Copy, PartialEq, Eq, Debug, Structural)]
pub enum StageAction {
    /// Make the directory and go on inside it.
    Descend,
    /// Copy the file.
    Copy,
    /// Leave it.
    Skip,
}

/// The bytes of `..data`.
pub open spec fn data_link() -> Seq<u8> {
    seq![0x2eu8, 0x2eu8, 0x64u8, 0x61u8, 0x74u8, 0x61u8]
}

/// Files are copied and directories are descended into, whatever they are
/// called. A mounted ConfigMap holds each of its files as a link, so links are
/// followed too, but for the link `..data`, which only says behind which
/// directory the files are.
pub open spec fn staging_of(name: Seq<u8>, kind: EntryKind) -> StageAction {
    match kind {
        EntryKind::Directory => StageAction::Descend,
        EntryKind::File | EntryKind::LinkToFile => StageAction::Copy,
        EntryKind::LinkToDirectory => if name == data_link() {
            StageAction::Skip
        } else {
            StageAction::Descend
        },
        EntryKind::LinkBack | EntryKind::Other => StageAction::Skip,
    }
}

/// What staging does with an entry of the mounted directory.
pub fn copy_dir_contents(name: &Vec<u8>, kind: EntryKind) -> (r: StageAction)
    ensures
        r == staging_of(name@, kind),
{
    match kind {
        EntryKind::Directory => StageAction::Descend,
        EntryKind::File | EntryKind::LinkToFile => StageAction::Copy,
        EntryKind::LinkToDirectory => {
            let data: [u8; 6] = [0x2e, 0x2e, 0x64, 0x61, 0x74, 0x61];
            proof {
                assert(data@ =~= data_link());
            }
            if same_bytes(name.as_slice(), data.as_slice()) {
                StageAction::Skip
            } else {
                StageAction::Descend
            }
        },
        EntryKind::LinkBack | EntryKind::Other => StageAction::Skip,
    }
}

/// Whether the path `inner` is the path `outer` or lies below it.
pub open spec fn encloses(outer: Seq<u8>, inner: Seq<u8>) -> bool {
    outer == inner || (0 < outer.len() < inner.len() && inner.take(outer.len() as int) == outer && (
    outer.last() == 0x2f || inner[outer.len() as int] == 0x2f))
}

fn lies_below(outer: &Vec<u8>, inner: &Vec<u8>) -> (r: bool)
    ensures
        r == encloses(outer@, inner@),
{
    let n = outer.len();
    if n == 0 || n >= inner.len() {
        return same_bytes(outer.as_slice(), inner.as_slice());
    }
    let head: &[u8] = &inner.as_slice()[0..n];
    proof {
        assert(head@ =~= inner@.take(n as int));
    }
    same_bytes(head, outer.as_slice()) && (outer[n - 1] == 0x2f || inner[n] == 0x2f)
}

/// Whether a link to the directory `target` leads back to one of the
/// directories on the way to it, or to one that holds it. The paths are those
/// of the directories themselves, without links.
pub fn leads_back(target: &Vec<u8>, way: &Vec<Vec<u8>>) -> (r: bool)
    ensures
        r == exists|i: int| 0 <= i < way.len() && encloses(target@, (#[trigger] way@[i])@),
{
    let mut i: usize = 0;
    while i < way.len()
        invariant
            i <= way.len(),
            forall|j: int| 0 <= j < i ==> !encloses(target@, (#[trigger] way@[j])@),
        decreases way.len() - i,
    {
        if lies_below(target, &way[i]) {
            return true;
        }
        i += 1;
    }
    false
}

/// A file in a directory.
pub open spec fn path_in(dir: Seq<char>, name: Seq<char>) -> Seq<char> {
    if dir.len() == 0 {
        name
    } else if dir.last() == '/' {
        dir + name
    } else {
        dir + "/"@ + name
    }
}

/// The path of a file in a directory.
pub fn join_path(dir: &str, name: &str) -> (r: String)
    ensures
        r@ == path_in(dir@, name@),
{
    let chars = chars_of(dir);
    if chars.len() == 0 {
        name.to_owned()
    } else if chars[chars.len() - 1] == '/' {
        cat(dir, name)
    } else {
        cat3(dir, "/", name)
    }
}

// ---------------------------------------------------------------------------
// Laws
// ---------------------------------------------------------------------------

/// Exactly the entries that are documents of desired state are applied.
pub proof fn law_statefiles_are_found(entries: Seq<SourceEntry>, i: int)
    requires
        0 <= i < entries.len(),
    ensures
        statefiles(entries).contains(i) <==> is_statefile(entries[i]),
    decreases entries.len(),
{
    let n = entries.len() - 1;
    let d = entries.drop_last();
    lemma_statefiles_in_range(d);
    if i < n {
        law_statefiles_are_found(d, i);
        assert(d[i] == entries[i]);
    }
    let before = statefiles(d);
    let s = statefiles(entries);
    if is_statefile(entries.last()) {
        assert(s[before.len() as int] == n);
        if before.contains(i) {
            let k = choose|k: int| 0 <= k < before.len() && before[k] == i;
            assert(s[k] == i);
        }
        if s.contains(i) && i < n {
            let k = choose|k: int| 0 <= k < s.len() && s[k] == i;
            assert(before[k] == i);
        }
    } else if i == n && before.contains(n) {
        let k = choose|k: int| 0 <= k < before.len() && before[k] == n;
        assert(before[k] < n);
    }
}

/// An entry of a directory: a file with what it holds, a directory with what
/// is in it, a link to one of these, or something else.
pub enum Node {
    File(Seq<u8>),
    Directory(Seq<(Seq<u8>, Node)>),
    LinkToFile(Seq<u8>),
    LinkToDirectory(Seq<(Seq<u8>, Node)>),
    LinkBack,
    Other,
}

/// What kind of entry it is.
pub open spec fn kind_of(n: Node) -> EntryKind {
    match n {
        Node::File(_) => EntryKind::File,
        Node::Directory(_) => EntryKind::Directory,
        Node::LinkToFile(_) => EntryKind::LinkToFile,
        Node::LinkToDirectory(_) => EntryKind::LinkToDirectory,
        Node::LinkBack => EntryKind::LinkBack,
        Node::Other => EntryKind::Other,
    }
}

/// What an entry becomes that is copied or descended into.
pub open spec fn copied(n: Node) -> Node
    decreases n,
{
    match n {
        Node::File(bytes) | Node::LinkToFile(bytes) => Node::File(bytes),
        Node::Directory(entries) | Node::LinkToDirectory(entries) => Node::Directory(
            staged(entries),
        ),
        _ => n,
    }
}

/// What the entries of a directory, names and all, become in the stage.
pub open spec fn staged(entries: Seq<(Seq<u8>, Node)>) -> Seq<(Seq<u8>, Node)>
    decreases entries,
{
    if entries.len() == 0 {
        seq![]
    } else {
        let (name, n) = entries.last();
        let before = staged(entries.drop_last());
        if staging_of(name, kind_of(n)) is Skip {
            before
        } else {
            before.push((name, copied(n)))
        }
    }
}

/// Whether there are only directories and files, at any depth.
pub open spec fn is_plain_tree(entries: Seq<(Seq<u8>, Node)>) -> bool
    decreases entries,
{
    if entries.len() == 0 {
        true
    } else {
        is_plain_tree(entries.drop_last()) && match entries.last().1 {
            Node::File(_) => true,
            Node::Directory(inside) => is_plain_tree(inside),
            _ => false,
        }
    }
}

/// A tree of directories and files is staged as it is: every directory and
/// every file, whatever its name and at any depth, with what it holds.
pub proof fn law_plain_trees_are_mirrored(entries: Seq<(Seq<u8>, Node)>)
    requires
        is_plain_tree(entries),
    ensures
        staged(entries) == entries,
    decreases entries,
{
    if entries.len() > 0 {
        let (name, n) = entries.last();
        law_plain_trees_are_mirrored(entries.drop_last());
        if let Node::Directory(inside) = n {
            law_plain_trees_are_mirrored(inside);
        }
        assert(copied(n) == n);
        assert(entries.drop_last().push((name, n)) =~= entries);
    }
}

/// Every file that is mounted is staged under its name with what it holds,
/// whether it is there itself or as a link.
pub proof fn law_files_are_staged(entries: Seq<(Seq<u8>, Node)>, i: int, bytes: Seq<u8>)
    requires
        0 <= i < entries.len(),
        entries[i].1 == Node::File(bytes) || entries[i].1 == Node::LinkToFile(bytes),
    ensures
        staged(entries).contains((entries[i].0, Node::File(bytes))),
    decreases entries.len(),
{
    let before = staged(entries.drop_last());
    let all = staged(entries);
    if i == entries.len() - 1 {
        assert(copied(entries[i].1) == Node::File(bytes));
        assert(all[before.len() as int] == (entries[i].0, Node::File(bytes)));
    } else {
        law_files_are_staged(entries.drop_last(), i, bytes);
        let k = choose|k: int|
            0 <= k < before.len() && before[k] == (entries[i].0, Node::File(bytes));
        assert(all[k] == before[k]);
    }
}

/// Whether one name comes before another in a dictionary, byte by byte, or is
/// the same.
pub open spec fn name_le(a: Seq<u8>, b: Seq<u8>) -> bool {
    a == b || exists|k: int| #[trigger] names_part(a, b, k)
}

/// Whether two names are the same before `k`, where the first one ends while
/// the second goes on, or has the smaller byte.
pub open spec fn names_part(a: Seq<u8>, b: Seq<u8>, k: int) -> bool {
    &&& 0 <= k <= a.len()
    &&& k < b.len()
    &&& a.take(k) == b.take(k)
    &&& k == a.len() || a[k] < b[k]
}

/// Whether one text comes before another in a dictionary, character by
/// character, or is the same.
pub open spec fn text_le(a: Seq<char>, b: Seq<char>) -> bool {
    a == b || exists|k: int| #[trigger] texts_part(a, b, k)
}

/// Whether two texts are the same before `k`, where the first one ends while
/// the second goes on, or has the smaller character.
pub open spec fn texts_part(a: Seq<char>, b: Seq<char>, k: int) -> bool {
    &&& 0 <= k <= a.len()
    &&& k < b.len()
    &&& a.take(k) == b.take(k)
    &&& k == a.len() || a[k] < b[k]
}

proof fn lemma_byte_keys(a: Seq<u8>, b: Seq<u8>)
    requires
        lex_le(byte_codes(a), byte_codes(b)),
    ensures
        name_le(a, b),
{
    let (x, y) = (byte_codes(a), byte_codes(b));
    law_order_is_that_of_dictionaries(x, y);
    if x == y {
        assert(a.len() == x.len());
        assert forall|i: int| 0 <= i < a.len() implies a[i] == b[i] by {
            assert(x[i] == y[i]);
        }
        assert(a =~= b);
    } else {
        let k = choose|k: int| #[trigger] parts_below(x, y, k);
        assert(a.take(k) =~= b.take(k)) by {
            assert forall|i: int| 0 <= i < k implies a[i] == b[i] by {
                assert(x.take(k)[i] == y.take(k)[i]);
            }
        }
        assert(names_part(a, b, k));
    }
}

proof fn lemma_char_number(a: char, b: char)
    ensures
        (a as u32) == (b as u32) <==> a == b,
        (a as u32) < (b as u32) <==> a < b,
{
}

/// The key of a text is in order where the text is.
pub proof fn lemma_text_keys(a: Seq<char>, b: Seq<char>)
    requires
        lex_le(char_codes(a), char_codes(b)),
    ensures
        text_le(a, b),
{
    let (x, y) = (char_codes(a), char_codes(b));
    law_order_is_that_of_dictionaries(x, y);
    if x == y {
        assert(a.len() == x.len());
        assert forall|i: int| 0 <= i < a.len() implies a[i] == b[i] by {
            assert(x[i] == y[i]);
            lemma_char_number(a[i], b[i]);
        }
        assert(a =~= b);
    } else {
        let k = choose|k: int| #[trigger] parts_below(x, y, k);
        assert(a.take(k) =~= b.take(k)) by {
            assert forall|i: int| 0 <= i < k implies a[i] == b[i] by {
                assert(x.take(k)[i] == y.take(k)[i]);
                assert(x[i] == y[i]);
                lemma_char_number(a[i], b[i]);
            }
        }
        if k < a.len() {
            lemma_char_number(a[k], b[k]);
        }
        assert(texts_part(a, b, k));
    }
}

/// Of two documents that are applied, the one whose whole name comes first in
/// a dictionary is applied first.
pub proof fn law_statefiles_are_applied_by_name(entries: Seq<SourceEntry>, i: int, j: int)
    requires
        0 <= i <= j < statefiles_in_order(entries).len(),
    ensures
        name_le(
            entries[statefiles_in_order(entries)[i]].name@,
            entries[statefiles_in_order(entries)[j]].name@,
        ),
{
    let found = statefiles(entries);
    let keys = Seq::new(found.len(), |i: int| byte_codes(entries[found[i]].name@));
    let ord = in_order(keys);
    law_order_is_sorted(keys);
    assert(ord.contains(ord[i]) && ord.contains(ord[j]));
    assert(lex_le(keys[ord[i]], keys[ord[j]]));
    lemma_byte_keys(entries[found[ord[i]]].name@, entries[found[ord[j]]].name@);
}

/// Every document is applied, and nothing else is.
pub proof fn law_all_statefiles_are_applied(entries: Seq<SourceEntry>, i: int)
    requires
        0 <= i < entries.len(),
    ensures
        statefiles_in_order(entries).contains(i) <==> is_statefile(entries[i]),
        statefiles_in_order(entries).len() == statefiles(entries).len(),
{
    let found = statefiles(entries);
    let keys = Seq::new(found.len(), |i: int| byte_codes(entries[found[i]].name@));
    let ord = in_order(keys);
    law_order_is_sorted(keys);
    law_statefiles_are_found(entries, i);
    let all = statefiles_in_order(entries);
    if is_statefile(entries[i]) {
        let k = choose|k: int| 0 <= k < found.len() && found[k] == i;
        assert(ord.contains(k));
        let m = choose|m: int| 0 <= m < ord.len() && ord[m] == k;
        assert(all[m] == i);
    }
    if all.contains(i) {
        let m = choose|m: int| 0 <= m < all.len() && all[m] == i;
        assert(ord.contains(ord[m]));
        assert(found[ord[m]] == i);
    }
}

proof fn lemma_last_dot(name: Seq<u8>)
    ensures
        last_dot(name) matches Some(p) ==> {
            &&& 0 <= p < name.len()
            &&& name[p] == 0x2e
            &&& forall|i: int| p < i < name.len() ==> name[i] != 0x2e
        },
        last_dot(name) is None ==> forall|i: int| 0 <= i < name.len() ==> name[i] != 0x2e,
    decreases name.len(),
{
    if name.len() > 0 && name.last() != 0x2e {
        let front = name.drop_last();
        lemma_last_dot(front);
        assert forall|i: int| 0 <= i < name.len() implies name[i] == (if i < front.len() {
            front[i]
        } else {
            name.last()
        }) by {}
        if last_dot(front) is Some {
            let p = last_dot(front).unwrap();
            assert forall|i: int| p < i < name.len() implies name[i] != 0x2e by {
                if i < front.len() {
                    assert(front[i] != 0x2e);
                }
            }
        } else {
            assert forall|i: int| 0 <= i < name.len() implies name[i] != 0x2e by {
                if i < front.len() {
                    assert(front[i] != 0x2e);
                }
            }
        }
    }
}

/// What stands in the order is the position of an entry.
pub proof fn lemma_statefiles_are_positions(entries: Seq<SourceEntry>, a: int)
    requires
        0 <= a < statefiles_in_order(entries).len(),
    ensures
        0 <= statefiles_in_order(entries)[a] < entries.len(),
{
    let found = statefiles(entries);
    let keys = Seq::new(found.len(), |i: int| byte_codes(entries[found[i]].name@));
    let ord = in_order(keys);
    law_order_is_sorted(keys);
    assert(ord.contains(ord[a]));
    lemma_statefiles_in_range(entries);
    assert(0 <= found[ord[a]] < entries.len());
}

/// Whether a name ends in some bytes.
pub open spec fn ends_in(name: Seq<u8>, end: Seq<u8>) -> bool {
    name.len() >= end.len() && name.skip(name.len() - end.len()) == end
}

/// A document is a file whose name ends in `.yml` or `.yaml` and does not start
/// with a dot.
pub proof fn law_statefiles_end_in_yml_or_yaml(e: SourceEntry)
    ensures
        is_statefile(e) <==> {
            &&& e.is_file
            &&& e.name@.len() > 0 && e.name@[0] != 0x2e
            &&& ends_in(e.name@, seq![0x2eu8, 0x79u8, 0x6du8, 0x6cu8]) || ends_in(
                e.name@,
                seq![0x2eu8, 0x79u8, 0x61u8, 0x6du8, 0x6cu8],
            )
        },
{
    let name = e.name@;
    let n = name.len() as int;
    let yml = seq![0x2eu8, 0x79u8, 0x6du8, 0x6cu8];
    let yaml = seq![0x2eu8, 0x79u8, 0x61u8, 0x6du8, 0x6cu8];
    lemma_last_dot(name);
    if ends_in(name, yml) {
        let t = name.skip(n - 4);
        assert(t[0] == name[n - 4] && t[1] == name[n - 3] && t[2] == name[n - 2] && t[3] == name[n
            - 1]);
        assert(last_dot(name) == Some(n - 4));
        assert(name.skip(n - 3) =~= seq![0x79u8, 0x6du8, 0x6cu8]);
    }
    if ends_in(name, yaml) {
        let t = name.skip(n - 5);
        assert(t[0] == name[n - 5] && t[1] == name[n - 4] && t[2] == name[n - 3] && t[3] == name[n
            - 2] && t[4] == name[n - 1]);
        assert(last_dot(name) == Some(n - 5));
        assert(name.skip(n - 4) =~= seq![0x79u8, 0x61u8, 0x6du8, 0x6cu8]);
    }
    if is_yaml(extension(name)) {
        let p = last_dot(name).unwrap();
        if name.skip(p + 1) == seq![0x79u8, 0x6du8, 0x6cu8] {
            assert(name.skip(p + 1).len() == 3);
            assert(name.skip(n - 4) =~= seq![name[p]] + name.skip(p + 1));
            assert(name.skip(n - 4) =~= yml);
        } else {
            assert(name.skip(p + 1).len() == 4);
            assert(name.skip(n - 5) =~= seq![name[p]] + name.skip(p + 1));
            assert(name.skip(n - 5) =~= yaml);
        }
    }
}

/// The names of the mounted files are logged in dictionary order, each as
/// often as it occurs and no other.
pub proof fn law_names_are_listed_in_order(t: Seq<Seq<char>>, i: int, j: int)
    requires
        0 <= i <= j < t.len(),
    ensures
        sorted_texts(t).len() == t.len(),
        text_le(sorted_texts(t)[i], sorted_texts(t)[j]),
        sorted_texts(t).contains(t[i]),
        t.contains(sorted_texts(t)[i]),
{
    let keys = Seq::new(t.len(), |i: int| char_codes(t[i]));
    let ord = in_order(keys);
    law_order_is_sorted(keys);
    assert(ord.contains(ord[i]) && ord.contains(ord[j]));
    assert(lex_le(keys[ord[i]], keys[ord[j]]));
    lemma_text_keys(t[ord[i]], t[ord[j]]);
    assert(ord.contains(i));
    let k = choose|k: int| 0 <= k < ord.len() && ord[k] == i;
    assert(sorted_texts(t)[k] == t[i]);
}

/// A file in a directory is named by the directory, one slash and its name.
pub proof fn law_paths_have_one_slash(dir: Seq<char>, name: Seq<char>)
    requires
        dir.len() > 0,
    ensures
        dir.last() != '/' ==> path_in(dir, name) == dir.push('/') + name,
        dir.last() == '/' ==> path_in(dir, name) == dir + name,
{
    reveal_strlit("/");
    assert(dir + "/"@ =~= dir.push('/'));
}

/// A directory encloses itself and what is below it, and no other directory
/// whose name only starts alike.
pub proof fn law_directories_enclose_what_is_below(dir: Seq<u8>, b: u8, rest: Seq<u8>)
    requires
        dir.len() > 0,
        dir.last() != 0x2f,
    ensures
        encloses(dir, dir),
        encloses(dir, dir.push(b) + rest) <==> b == 0x2f,
        !encloses(dir.push(b) + rest, dir),
        encloses(seq![0x2fu8], seq![0x2fu8] + rest),
{
    let below = dir.push(b) + rest;
    assert(below.take(dir.len() as int) =~= dir);
    assert(below[dir.len() as int] == b);
    let root = seq![0x2fu8];
    assert((root + rest).take(1) =~= root);
    if rest.len() == 0 {
        assert(root + rest =~= root);
    }
}

/// What staging does with an entry depends on its kind alone, but for links to
/// directories, of which the one that is called `..data` is left out.
pub proof fn law_names_do_not_decide(a: Seq<u8>, b: Seq<u8>, kind: EntryKind)
    ensures
        kind != EntryKind::LinkToDirectory ==> staging_of(a, kind) == staging_of(b, kind),
        staging_of(a, EntryKind::LinkToDirectory) is Skip <==> a == seq![
            0x2eu8,
            0x2eu8,
            0x64u8,
            0x61u8,
            0x74u8,
            0x61u8,
        ],
        staging_of(a, EntryKind::File) == StageAction::Copy,
        staging_of(a, EntryKind::LinkToFile) == StageAction::Copy,
        staging_of(a, EntryKind::Directory) == StageAction::Descend,
        staging_of(a, kind) == StageAction::Copy ==> kind == EntryKind::File || kind
            == EntryKind::LinkToFile,
        staging_of(a, EntryKind::LinkBack) == StageAction::Skip,
        staging_of(a, EntryKind::Other) == StageAction::Skip,
{
}

/// Every directory that is mounted is staged under its name with what of it is
/// staged, whether it is there itself or as a link, but for the link `..data`.
pub proof fn law_directories_are_staged(
    entries: Seq<(Seq<u8>, Node)>,
    i: int,
    within: Seq<(Seq<u8>, Node)>,
)
    requires
        0 <= i < entries.len(),
        entries[i].1 == Node::Directory(within) || entries[i].1 == Node::LinkToDirectory(within)
            && entries[i].0 != seq![0x2eu8, 0x2eu8, 0x64u8, 0x61u8, 0x74u8, 0x61u8],
    ensures
        staged(entries).contains((entries[i].0, Node::Directory(staged(within)))),
    decreases entries.len(),
{
    let before = staged(entries.drop_last());
    let all = staged(entries);
    let one = (entries[i].0, Node::Directory(staged(within)));
    if i == entries.len() - 1 {
        assert(copied(entries[i].1) == Node::Directory(staged(within)));
        assert(all[before.len() as int] == one);
    } else {
        law_directories_are_staged(entries.drop_last(), i, within);
        let k = choose|k: int| 0 <= k < before.len() && before[k] == one;
        assert(all[k] == before[k]);
    }
}

/// The names of files are told in full, one text for each.
pub proof fn law_names_are_told(names: Seq<Vec<u8>>, i: int)
    requires
        0 <= i < names.len(),
    ensures
        name_texts(names).len() == names.len(),
        name_texts(names)[i] == utf8_lossy(names[i]@),
{
}

} // verus!
