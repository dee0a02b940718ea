//! The unified archive entity: an ordered, uniquely-keyed mapping from
//! normalized file paths to per-entry metadata records, plus extraction and
//! extension filtering over it.

use vstd::prelude::*;

use crate::error::ErrorKind;
use crate::error::TESError;
use crate::reader::TESReader;
use vstd::pervasive::VecAdditionalExecFns;

verus! {

/// Whether every key occurs at most once in an entry list.
pub open spec fn distinct_keys<F>(s: Seq<(Seq<char>, F)>) -> bool {
    forall|i: int, j: int|
        0 <= i < s.len() && 0 <= j < s.len() && i != j ==> (#[trigger] s[i]).0 != (
        #[trigger] s[j]).0
}

/// Whether an entry list holds `k`.
pub open spec fn contains_key<F>(s: Seq<(Seq<char>, F)>, k: Seq<char>) -> bool {
    exists|i: int| 0 <= i < s.len() && (#[trigger] s[i]).0 == k
}

/// The index at which an entry list holds `k` (unique when keys are
/// distinct).
pub open spec fn key_index<F>(s: Seq<(Seq<char>, F)>, k: Seq<char>) -> int {
    choose|i: int| 0 <= i < s.len() && (#[trigger] s[i]).0 == k
}

/// The value an entry list associates with `k`, if any.
pub open spec fn spec_get<F>(s: Seq<(Seq<char>, F)>, k: Seq<char>) -> Option<F> {
    if contains_key(s, k) {
        Some(s[key_index(s, k)].1)
    } else {
        None
    }
}

/// One insertion, with the same meaning as a hash-map insert: an existing
/// key's value is replaced in place, a new key is appended.
pub open spec fn spec_insert<F>(s: Seq<(Seq<char>, F)>, k: Seq<char>, v: F) -> Seq<
    (Seq<char>, F),
> {
    if contains_key(s, k) {
        s.update(key_index(s, k), (k, v))
    } else {
        s.push((k, v))
    }
}

/// The entry list built by inserting `pairs` in order into an empty mapping.
/// This is the positional-zip contract: the decoders' ordered name/record
/// pairs become the archive index exactly in traversal order.
pub open spec fn build_map<F>(pairs: Seq<(Seq<char>, F)>) -> Seq<(Seq<char>, F)>
    decreases pairs.len(),
{
    if pairs.len() == 0 {
        Seq::empty()
    } else {
        spec_insert(build_map(pairs.drop_last()), pairs.last().0, pairs.last().1)
    }
}

/// Inserting preserves key distinctness.
proof fn lemma_insert_distinct<F>(s: Seq<(Seq<char>, F)>, k: Seq<char>, v: F)
    requires
        distinct_keys(s),
    ensures
        distinct_keys(spec_insert(s, k, v)),
{
    if contains_key(s, k) {
        let i = key_index(s, k);
        assert(0 <= i < s.len() && s[i].0 == k);
        let t = s.update(i, (k, v));
        assert forall|a: int, b: int|
            0 <= a < t.len() && 0 <= b < t.len() && a != b implies (#[trigger] t[a]).0 != (
        #[trigger] t[b]).0 by {
            assert(t[a].0 == if a == i {
                k
            } else {
                s[a].0
            });
            assert(t[b].0 == if b == i {
                k
            } else {
                s[b].0
            });
        }
    } else {
        let t = s.push((k, v));
        assert forall|a: int, b: int|
            0 <= a < t.len() && 0 <= b < t.len() && a != b implies (#[trigger] t[a]).0 != (
        #[trigger] t[b]).0 by {
            if a < s.len() && b < s.len() {
                assert(s[a].0 != s[b].0);
            } else if a == s.len() {
                assert(t[a].0 == k);
                assert(!(s[b].0 == k)) by {
                    assert(contains_key(s, k) == false);
                }
            } else {
                assert(t[b].0 == k);
                assert(!(s[a].0 == k));
            }
        }
    }
}

/// A built mapping always has distinct keys.
pub proof fn lemma_build_map_distinct<F>(pairs: Seq<(Seq<char>, F)>)
    ensures
        distinct_keys(build_map(pairs)),
    decreases pairs.len(),
{
    if pairs.len() == 0 {
        assert(distinct_keys(build_map(pairs)));
    } else {
        lemma_build_map_distinct(pairs.drop_last());
        lemma_insert_distinct(build_map(pairs.drop_last()), pairs.last().0, pairs.last().1);
    }
}

/// The positional pairing law: when the keys of the ordered name/record
/// pairs are pairwise distinct, building the mapping changes nothing — the
/// i-th entry of the index is exactly the i-th pair, in order, and the entry
/// count equals the pair count.
pub proof fn lemma_build_map_of_distinct<F>(pairs: Seq<(Seq<char>, F)>)
    requires
        distinct_keys(pairs),
    ensures
        build_map(pairs) == pairs,
    decreases pairs.len(),
{
    if pairs.len() == 0 {
        assert(build_map(pairs) =~= pairs);
    } else {
        let front = pairs.drop_last();
        assert(distinct_keys(front)) by {
            assert forall|a: int, b: int|
                0 <= a < front.len() && 0 <= b < front.len() && a != b implies (
            #[trigger] front[a]).0 != (#[trigger] front[b]).0 by {
                assert(pairs[a].0 != pairs[b].0);
            }
        }
        lemma_build_map_of_distinct(front);
        assert(!contains_key(front, pairs.last().0)) by {
            if contains_key(front, pairs.last().0) {
                let i = key_index(front, pairs.last().0);
                assert(pairs[i].0 == pairs[pairs.len() - 1].0);
            }
        }
        assert(build_map(pairs) =~= pairs);
    }
}

/// The archive index: a mapping from normalized relative file paths to
/// per-entry metadata, with unique keys, kept in insertion order. Built once
/// at parse time and read-only thereafter.
pub struct FileMap<F> {
    entries: Vec<(String, F)>,
}

impl<F> View for FileMap<F> {
    type V = Seq<(Seq<char>, F)>;

    closed spec fn view(&self) -> Seq<(Seq<char>, F)> {
        Seq::new(self.entries@.len(), |i: int| (self.entries@[i].0@, self.entries@[i].1))
    }
}

impl<F> FileMap<F> {
    /// Keys are pairwise distinct.
    pub open spec fn wf(&self) -> bool {
        distinct_keys(self@)
    }

    /// An empty mapping.
    pub fn new() -> (r: Self)
        ensures
            r@ == Seq::<(Seq<char>, F)>::empty(),
            r.wf(),
    {
        let r = FileMap { entries: Vec::new() };
        proof {
            assert(r@ =~= Seq::<(Seq<char>, F)>::empty());
        }
        r
    }

    /// The number of entries.
    pub fn len(&self) -> (r: usize)
        ensures
            r == self@.len(),
    {
        self.entries.len()
    }

    /// Inserts one entry, replacing the value of an existing key in place and
    /// appending a new key.
    pub fn insert(&mut self, key: String, value: F)
        requires
            old(self).wf(),
        ensures
            final(self).wf(),
            final(self)@ == spec_insert(old(self)@, key@, value),
    {
        let ghost s = self@;
        proof {
            assert(s == old(self)@);
        }
        let n = self.entries.len();
        let mut i: usize = 0;
        while i < n
            invariant
                n == s.len(),
                s == self@,
                s == old(self)@,
                i <= n,
                self.wf(),
                forall|m: int| 0 <= m < i ==> (#[trigger] s[m]).0 != key@,
            decreases n - i,
        {
            if self.entries[i].0 == key {
                proof {
                    assert(s[i as int].0 == key@);
                    assert(contains_key(s, key@));
                    let j = key_index(s, key@);
                    assert(0 <= j < s.len() && s[j].0 == key@);
                    assert(j == i);
                    lemma_insert_distinct(s, key@, value);
                }
                self.entries.set(i, (key, value));
                proof {
                    assert(s == old(self)@);
                    assert(contains_key(old(self)@, key@));
                    assert(key_index(old(self)@, key@) == i as int);
                    assert(self@ =~~= s.update(i as int, (key@, value)));
                    assert(self@ =~~= spec_insert(old(self)@, key@, value));
                }
                return ;
            }
            proof {
                assert(s[i as int].0 == self.entries@[i as int].0@);
            }
            i = i + 1;
        }
        proof {
            assert(!contains_key(s, key@));
            lemma_insert_distinct(s, key@, value);
        }
        self.entries.push((key, value));
        proof {
            assert(self@ =~~= s.push((key@, value)));
        }
    }

    /// Looks an entry up by its exact key.
    pub fn get(&self, key: &String) -> (r: Option<&F>)
        requires
            self.wf(),
        ensures
            match r {
                Some(f) => spec_get(self@, key@) == Some(*f),
                None => spec_get(self@, key@) is None,
            },
    {
        let ghost s = self@;
        let n = self.entries.len();
        let mut i: usize = 0;
        while i < n
            invariant
                n == s.len(),
                s == self@,
                i <= n,
                self.wf(),
                forall|m: int| 0 <= m < i ==> (#[trigger] s[m]).0 != key@,
            decreases n - i,
        {
            if self.entries[i].0 == *key {
                proof {
                    assert(s[i as int].0 == key@);
                    assert(contains_key(s, key@));
                    let j = key_index(s, key@);
                    assert(0 <= j < s.len() && s[j].0 == key@);
                    assert(j == i);
                    assert(s[i as int].1 == self.entries@[i as int].1);
                }
                return Some(&self.entries[i].1);
            }
            proof {
                assert(s[i as int].0 == self.entries@[i as int].0@);
            }
            i = i + 1;
        }
        proof {
            assert(!contains_key(s, key@));
        }
        None
    }
}

/// The set of file extensions an extraction request asks for.
#[derive(Debug)]
pub enum ExtensionSet {
    /// The empty set: nothing matches.
    Empty,
    /// A list of one or more extensions.
    List(Vec<String>),
    /// The set of all possible extensions.
    All,
}

impl ExtensionSet {
    /// Whether a file extension belongs to this set.
    pub open spec fn spec_is_match(&self, ext: Seq<char>) -> bool {
        match self {
            ExtensionSet::Empty => false,
            ExtensionSet::All => true,
            ExtensionSet::List(l) => exists|i: int|
                0 <= i < l.deep_view().len() && l.deep_view()[i] == ext,
        }
    }

    /// Determines if a given file extension has a match within the set.
    pub fn is_match(&self, file_extension: &str) -> (r: bool)
        ensures
            r == self.spec_is_match(file_extension@),
    {
        match self {
            ExtensionSet::Empty => false,
            ExtensionSet::All => true,
            ExtensionSet::List(ext_list) => {
                let wanted = file_extension.to_owned();
                let n = ext_list.len();
                let mut found = false;
                let mut i: usize = 0;
                while i < n
                    invariant
                        n == ext_list@.len(),
                        wanted@ == file_extension@,
                        i <= n,
                        found == exists|m: int|
                            0 <= m < i && #[trigger] ext_list.deep_view()[m] == file_extension@,
                    decreases n - i,
                {
                    proof {
                        assert(ext_list.deep_view()[i as int] == ext_list@[i as int]@);
                    }
                    if ext_list[i] == wanted {
                        found = true;
                        proof {
                            assert(ext_list.deep_view()[i as int] == file_extension@);
                        }
                    } else {
                        proof {
                            assert(ext_list.deep_view()[i as int] != file_extension@);
                            assert(forall|m: int|
                                0 <= m < i + 1 && #[trigger] ext_list.deep_view()[m]
                                    == file_extension@ ==> 0 <= m < i);
                        }
                    }
                    i = i + 1;
                }
                proof {
                    assert(ext_list.deep_view().len() == ext_list@.len());
                }
                found
            },
        }
    }
}

/// The index of the last occurrence of `c` in `s`, or `-1` if there is none.
pub open spec fn last_index_of(s: Seq<char>, c: char) -> int
    decreases s.len(),
{
    if s.len() == 0 {
        -1
    } else if s[s.len() - 1] == c {
        s.len() - 1
    } else {
        last_index_of(s.drop_last(), c)
    }
}

proof fn lemma_last_index_of_props(s: Seq<char>, c: char)
    ensures
        -1 <= last_index_of(s, c) < s.len(),
        last_index_of(s, c) >= 0 ==> s[last_index_of(s, c)] == c,
        forall|j: int| last_index_of(s, c) < j < s.len() ==> s[j] != c,
    decreases s.len(),
{
    if s.len() > 0 && s[s.len() - 1] != c {
        lemma_last_index_of_props(s.drop_last(), c);
        assert forall|j: int| last_index_of(s, c) < j < s.len() implies s[j] != c by {
            if j < s.len() - 1 {
                assert(s.drop_last()[j] != c);
            }
        }
    }
}

proof fn lemma_last_index_of_at(s: Seq<char>, c: char, i: int)
    requires
        0 <= i < s.len(),
        s[i] == c,
        forall|j: int| i < j < s.len() ==> s[j] != c,
    ensures
        last_index_of(s, c) == i,
    decreases s.len(),
{
    if i == s.len() - 1 {
    } else {
        assert(s[s.len() - 1] != c);
        lemma_last_index_of_at(s.drop_last(), c, i);
    }
}

proof fn lemma_last_index_of_none(s: Seq<char>, c: char)
    requires
        forall|j: int| 0 <= j < s.len() ==> s[j] != c,
    ensures
        last_index_of(s, c) == -1,
    decreases s.len(),
{
    if s.len() > 0 {
        lemma_last_index_of_none(s.drop_last(), c);
    }
}

/// The file extension of a normalized path key: the characters after the
/// last dot of the path's final, slash-separated component — provided that
/// dot is neither the component's first character nor missing. `a.nif` has
/// extension `nif`; `c`, `.nif` and `a/.b` have none; `a.` has the empty
/// extension.
pub open spec fn spec_extension(path: Seq<char>) -> Option<Seq<char>> {
    let slash = last_index_of(path, '/');
    let dot = last_index_of(path, '.');
    if dot <= slash + 1 {
        None
    } else {
        Some(path.subrange(dot + 1, path.len() as int))
    }
}

/// Finds the last occurrence of a character in a string.
fn rfind_char(s: &str, c: char) -> (r: Option<usize>)
    ensures
        match r {
            Some(i) => last_index_of(s@, c) == i as int,
            None => last_index_of(s@, c) == -1,
        },
{
    let n = s.unicode_len();
    let mut i: usize = n;
    while i > 0
        invariant
            i <= n == s@.len(),
            forall|j: int| i <= j < n ==> s@[j] != c,
        decreases i,
    {
        i = i - 1;
        if s.get_char(i) == c {
            proof {
                lemma_last_index_of_at(s@, c, i as int);
            }
            return Some(i);
        }
    }
    proof {
        lemma_last_index_of_none(s@, c);
    }
    None
}

/// The file extension of a path key, per [`spec_extension`].
pub fn extension_of(path: &String) -> (r: Option<String>)
    ensures
        match r {
            Some(e) => spec_extension(path@) == Some(e@),
            None => spec_extension(path@) is None,
        },
{
    let st = path.as_str();
    let n = st.unicode_len();
    let dot = match rfind_char(st, '.') {
        Some(d) => d,
        None => {
            proof {
                lemma_last_index_of_props(path@, '/');
            }
            return None;
        },
    };
    proof {
        lemma_last_index_of_props(path@, '.');
        lemma_last_index_of_props(path@, '/');
    }
    let slash_end: usize = match rfind_char(st, '/') {
        Some(sl) => sl + 1,
        None => 0,
    };
    if dot <= slash_end {
        None
    } else {
        Some(st.substring_char(dot + 1, n).to_owned())
    }
}

/// The keys of an entry list, in order.
pub open spec fn map_keys<F>(s: Seq<(Seq<char>, F)>) -> Seq<Seq<char>> {
    s.map_values(|p: (Seq<char>, F)| p.0)
}

/// Whether an extension filter keeps a key: the empty filter keeps nothing,
/// the full filter keeps everything, and a list keeps keys whose extension
/// matches — or that have no extension at all.
pub open spec fn spec_keeps(set: ExtensionSet, key: Seq<char>) -> bool {
    match set {
        ExtensionSet::Empty => false,
        ExtensionSet::All => true,
        ExtensionSet::List(_) => match spec_extension(key) {
            Some(e) => set.spec_is_match(e),
            None => true,
        },
    }
}

/// The keys among the first `i` entries that an extension filter keeps, in
/// order.
pub open spec fn kept_keys_upto<F>(m: Seq<(Seq<char>, F)>, set: ExtensionSet, i: int) -> Seq<
    Seq<char>,
> {
    map_keys(m).subrange(0, i).filter(|k: Seq<char>| spec_keeps(set, k))
}

/// The keys an extension filter keeps, in entry order.
pub open spec fn kept_keys<F>(m: Seq<(Seq<char>, F)>, set: ExtensionSet) -> Seq<Seq<char>> {
    kept_keys_upto(m, set, m.len() as int)
}

proof fn lemma_kept_keys_step<F>(m: Seq<(Seq<char>, F)>, set: ExtensionSet, i: int)
    requires
        0 <= i < m.len(),
    ensures
        kept_keys_upto(m, set, i + 1) == if spec_keeps(set, m[i].0) {
            kept_keys_upto(m, set, i).push(m[i].0)
        } else {
            kept_keys_upto(m, set, i)
        },
{
    let keys = map_keys(m);
    let pred = |k: Seq<char>| spec_keeps(set, k);
    assert(keys.subrange(0, i + 1).drop_last() =~= keys.subrange(0, i));
    assert(keys.subrange(0, i + 1).last() == m[i].0);
    reveal(Seq::filter);
    assert(kept_keys_upto(m, set, i + 1) == if pred(m[i].0) {
        keys.subrange(0, i).filter(pred).push(m[i].0)
    } else {
        keys.subrange(0, i).filter(pred)
    });
}

proof fn lemma_kept_keys_zero<F>(m: Seq<(Seq<char>, F)>, set: ExtensionSet)
    ensures
        kept_keys_upto(m, set, 0) == Seq::<Seq<char>>::empty(),
{
    let keys = map_keys(m);
    assert(keys.subrange(0, 0) =~= Seq::<Seq<char>>::empty());
    reveal(Seq::filter);
}

/// Extraction of one entry's payload out of the archive's raw bytes.
pub trait Extract: Sized {
    /// The entry's internal validity, established by the decoders.
    spec fn wf(&self) -> bool;

    /// What extraction returns for this entry over the given archive bytes.
    spec fn extract_spec(&self, data: Seq<u8>) -> Result<Seq<u8>, ErrorKind>;

    /// Given a cursor over the archive's bytes, extracts this entry's file
    /// content.
    fn extract(&self, reader: &mut TESReader) -> (r: Result<Vec<u8>, TESError>)
        requires
            self.wf(),
        ensures
            final(reader).bytes() == old(reader).bytes(),
            match r {
                Ok(v) => self.extract_spec(old(reader).bytes()) == Ok::<Seq<u8>, ErrorKind>(v@),
                Err(e) => self.extract_spec(old(reader).bytes()) == Err::<Seq<u8>, ErrorKind>(
                    e.kind(),
                ),
            },
    ;
}

/// What extracting every entry of `keys`, in order, returns: the first
/// failure aborts the whole request, otherwise each key is paired with its
/// extracted bytes.
pub open spec fn spec_extract_all<F: Extract>(
    m: Seq<(Seq<char>, F)>,
    keys: Seq<Seq<char>>,
    data: Seq<u8>,
) -> Result<Seq<(Seq<char>, Seq<u8>)>, ErrorKind>
    decreases keys.len(),
{
    if keys.len() == 0 {
        Ok(Seq::empty())
    } else {
        match spec_get(m, keys[0]) {
            None => Err(ErrorKind::NotFound),
            Some(f) => match f.extract_spec(data) {
                Err(k) => Err(k),
                Ok(bytes) => match spec_extract_all(m, keys.drop_first(), data) {
                    Err(k) => Err(k),
                    Ok(rest) => Ok(seq![(keys[0], bytes)] + rest),
                },
            },
        }
    }
}

/// One parsed archive: its path on disk, its normalized header, and the
/// mapping from file paths to entry metadata. Immutable once built.
pub struct Archive<H, F> {
    /// Path on disk to this file.
    pub path: String,
    /// Header containing metadata for the entire archive.
    pub header: H,
    /// Mapping from file paths to entry records.
    pub file_hashmap: FileMap<F>,
}

impl<H, F: Extract> Archive<H, F> {
    /// The index has distinct keys and every entry is internally valid.
    pub open spec fn wf(&self) -> bool {
        &&& self.file_hashmap.wf()
        &&& forall|i: int|
            0 <= i < self.file_hashmap@.len() ==> (#[trigger] self.file_hashmap@[i]).1.wf()
    }

    /// Given a set of extensions, finds all of the file paths that match it,
    /// in index order. Keys without an extension always match a list filter.
    pub fn get_by_extension(&self, extension_set: &ExtensionSet) -> (r: Vec<String>)
        ensures
            r.deep_view() == kept_keys(self.file_hashmap@, *extension_set),
    {
        let ghost m = self.file_hashmap@;
        let mut file_names: Vec<String> = Vec::new();
        proof {
            lemma_kept_keys_zero(m, *extension_set);
            assert(file_names.deep_view() =~= Seq::<Seq<char>>::empty());
        }
        if matches!(extension_set, ExtensionSet::Empty) {
            proof {
                lemma_kept_empty_prefix(m, *extension_set, m.len() as int);
            }
            return file_names;
        }
        let n = self.file_hashmap.entries.len();
        let mut i: usize = 0;
        while i < n
            invariant
                n == m.len(),
                m == self.file_hashmap@,
                i <= n,
                file_names.deep_view() == kept_keys_upto(m, *extension_set, i as int),
                !matches!(extension_set, ExtensionSet::Empty),
            decreases n - i,
        {
            let key = &self.file_hashmap.entries[i].0;
            proof {
                assert(m[i as int].0 == key@);
            }
            let keep: bool = match extension_set {
                ExtensionSet::All => true,
                ExtensionSet::Empty => false,
                ExtensionSet::List(_) => match extension_of(key) {
                    Some(ext) => extension_set.is_match(ext.as_str()),
                    None => true,
                },
            };
            proof {
                assert(keep == spec_keeps(*extension_set, m[i as int].0));
                lemma_kept_keys_step(m, *extension_set, i as int);
            }
            if keep {
                let ghost dv = file_names.deep_view();
                file_names.push(key.clone());
                proof {
                    assert(file_names.deep_view() =~= dv.push(key@));
                }
            }
            i = i + 1;
        }
        file_names
    }

    /// Given a file path, extracts the file's content from the archive's
    /// bytes. An unknown path fails with `NotFound`, naming the path.
    pub fn extract_by_name(&self, reader: &mut TESReader, file_path: &String) -> (r: Result<
        Vec<u8>,
        TESError,
    >)
        requires
            self.wf(),
        ensures
            final(reader).bytes() == old(reader).bytes(),
            match spec_get(self.file_hashmap@, file_path@) {
                None => r is Err && (r matches Err(e) ==> e.kind() == ErrorKind::NotFound),
                Some(f) => match r {
                    Ok(v) => f.extract_spec(old(reader).bytes()) == Ok::<Seq<u8>, ErrorKind>(v@),
                    Err(e) => f.extract_spec(old(reader).bytes()) == Err::<Seq<u8>, ErrorKind>(
                        e.kind(),
                    ),
                },
            },
    {
        match self.file_hashmap.get(file_path) {
            None => Err(
                TESError::NotFound(
                    String::from_str("File not found: ").concat(file_path.as_str()),
                ),
            ),
            Some(file_record) => {
                proof {
                    let j = key_index(self.file_hashmap@, file_path@);
                    assert(self.file_hashmap@[j].1.wf());
                }
                file_record.extract(reader)
            },
        }
    }

    /// Given a set of extensions, extracts every matching entry, in index
    /// order, pairing each file path with its raw content. The first failing
    /// entry aborts the whole request.
    pub fn extract_by_extension(&self, reader: &mut TESReader, extension_set: &ExtensionSet) -> (r:
        Result<Vec<(String, Vec<u8>)>, TESError>)
        requires
            self.wf(),
        ensures
            final(reader).bytes() == old(reader).bytes(),
            match r {
                Ok(v) => spec_extract_all(
                    self.file_hashmap@,
                    kept_keys(self.file_hashmap@, *extension_set),
                    old(reader).bytes(),
                ) == Ok::<Seq<(Seq<char>, Seq<u8>)>, ErrorKind>(v.deep_view()),
                Err(e) => spec_extract_all(
                    self.file_hashmap@,
                    kept_keys(self.file_hashmap@, *extension_set),
                    old(reader).bytes(),
                ) == Err::<Seq<(Seq<char>, Seq<u8>)>, ErrorKind>(e.kind()),
            },
    {
        let ghost m = self.file_hashmap@;
        let ghost data = reader.bytes();
        let file_names = self.get_by_extension(extension_set);
        let ghost keys = file_names.deep_view();
        let n = file_names.len();
        let mut out: Vec<(String, Vec<u8>)> = Vec::new();
        let mut j: usize = 0;
        proof {
        assert(out.deep_view() =~= Seq::<(Seq<char>, Seq<u8>)>::empty());
        assert(keys.skip(0) =~= keys);
        }
        while j < n
            invariant
                self.wf(),
                m == self.file_hashmap@,
                data == reader.bytes(),
                data == old(reader).bytes(),
                keys == kept_keys(m, *extension_set),
                n == keys.len(),
                n == file_names.deep_view().len(),
                keys == file_names.deep_view(),
                j <= n,
                forall|t: int| 0 <= t < n ==> (#[trigger] file_names.deep_view()[t]) == keys[t],
                spec_extract_all(m, keys, data) == (match spec_extract_all(
                    m,
                    keys.skip(j as int),
                    data,
                ) {
                    Err(k) => Err::<Seq<(Seq<char>, Seq<u8>)>, ErrorKind>(k),
                    Ok(rest) => Ok::<Seq<(Seq<char>, Seq<u8>)>, ErrorKind>(out.deep_view() + rest),
                }),
            decreases n - j,
        {
            let name = &file_names[j];
            proof {
                assert(keys.skip(j as int)[0] == keys[j as int]);
                assert(keys.skip(j as int).drop_first() =~= keys.skip(j + 1));
                assert(name@ == keys[j as int]);
            }
            match self.extract_by_name(reader, name) {
                Err(e) => {
                    return Err(e);
                },
                Ok(bytes) => {
                    let ghost dv = out.deep_view();
                    let ghost bv = bytes@;
                    out.push((name.clone(), bytes));
                    proof {
                        assert(out.deep_view() =~~= dv.push((name@, bv)));
                        if spec_extract_all(m, keys.skip(j + 1), data) is Ok {
                            let rest = spec_extract_all(m, keys.skip(j + 1), data)->Ok_0;
                            assert(dv + (seq![(keys[j as int], bv)] + rest) =~= dv.push(
                                (keys[j as int], bv),
                            ) + rest);
                        }
                    }
                },
            }
            j = j + 1;
        }
        proof {
            assert(keys.skip(n as int) =~= Seq::<Seq<char>>::empty());
            assert(out.deep_view() + Seq::<(Seq<char>, Seq<u8>)>::empty() =~= out.deep_view());
        }
        Ok(out)
    }
}

proof fn lemma_kept_empty_prefix<F>(m: Seq<(Seq<char>, F)>, set: ExtensionSet, i: int)
    requires
        set is Empty,
        0 <= i <= m.len(),
    ensures
        kept_keys_upto(m, set, i) == Seq::<Seq<char>>::empty(),
    decreases i,
{
    if i == 0 {
        lemma_kept_keys_zero(m, set);
    } else {
        lemma_kept_empty_prefix(m, set, i - 1);
        lemma_kept_keys_step(m, set, i - 1);
    }
}

} // verus!
