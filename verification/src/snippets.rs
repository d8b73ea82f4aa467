//! The snippet resolver: a virtual request path is matched against two
//! disjoint registries of generated code fragments — whole named modules,
//! addressed by their exact virtual path, and anonymous inline snippets,
//! addressed as `<group>/inline<index>.js`.

use vstd::prelude::*;
use vstd::string::StrSliceExecFns;

use crate::strutil::{
    all_digits, digits_val, find_char, first_index, lemma_first_index_none,
    lemma_first_index_some, occurs_at, parse_usize_digits, starts_with_at, str_eq,
    substring_copy,
};

verus! {

/// Registry of named modules: virtual path to module body.
///
/// The registry is an association list looked up by first match; the view
/// is the map it realizes.
pub struct ModuleMap {
    entries: Vec<(String, String)>,
}

/// Registry of inline snippet groups: group name to the ordered bodies of
/// the group's fragments.
pub struct SnippetGroups {
    entries: Vec<(String, Vec<String>)>,
}

/// First-match lookup in an association list of named modules.
pub open spec fn module_lookup(entries: Seq<(String, String)>, key: Seq<char>) -> Option<
    Seq<char>,
>
    decreases entries.len(),
{
    if entries.len() == 0 {
        None
    } else if entries[0].0@ == key {
        Some(entries[0].1@)
    } else {
        module_lookup(entries.skip(1), key)
    }
}

/// First-match lookup in an association list of snippet groups.
pub open spec fn group_lookup(entries: Seq<(String, Vec<String>)>, key: Seq<char>) -> Option<
    Seq<Seq<char>>,
>
    decreases entries.len(),
{
    if entries.len() == 0 {
        None
    } else if entries[0].0@ == key {
        Some(entries[0].1.deep_view())
    } else {
        group_lookup(entries.skip(1), key)
    }
}

proof fn lemma_module_lookup_at(entries: Seq<(String, String)>, key: Seq<char>, j: int)
    requires
        0 <= j < entries.len(),
        entries[j].0@ == key,
        forall|k: int| 0 <= k < j ==> entries[k].0@ != key,
    ensures
        module_lookup(entries, key) == Some(entries[j].1@),
    decreases j,
{
    if j > 0 {
        assert(forall|k: int| 0 <= k < j - 1 ==> entries.skip(1)[k] == entries[k + 1]);
        lemma_module_lookup_at(entries.skip(1), key, j - 1);
    }
}

proof fn lemma_module_lookup_none(entries: Seq<(String, String)>, key: Seq<char>)
    requires
        forall|k: int| 0 <= k < entries.len() ==> entries[k].0@ != key,
    ensures
        module_lookup(entries, key) is None,
    decreases entries.len(),
{
    if entries.len() > 0 {
        assert(forall|k: int| 0 <= k < entries.len() - 1 ==> entries.skip(1)[k] == entries[k + 1]);
        lemma_module_lookup_none(entries.skip(1), key);
    }
}

proof fn lemma_group_lookup_at(entries: Seq<(String, Vec<String>)>, key: Seq<char>, j: int)
    requires
        0 <= j < entries.len(),
        entries[j].0@ == key,
        forall|k: int| 0 <= k < j ==> entries[k].0@ != key,
    ensures
        group_lookup(entries, key) == Some(entries[j].1.deep_view()),
    decreases j,
{
    if j > 0 {
        assert(forall|k: int| 0 <= k < j - 1 ==> entries.skip(1)[k] == entries[k + 1]);
        lemma_group_lookup_at(entries.skip(1), key, j - 1);
    }
}

proof fn lemma_group_lookup_none(entries: Seq<(String, Vec<String>)>, key: Seq<char>)
    requires
        forall|k: int| 0 <= k < entries.len() ==> entries[k].0@ != key,
    ensures
        group_lookup(entries, key) is None,
    decreases entries.len(),
{
    if entries.len() > 0 {
        assert(forall|k: int| 0 <= k < entries.len() - 1 ==> entries.skip(1)[k] == entries[k + 1]);
        lemma_group_lookup_none(entries.skip(1), key);
    }
}

impl ModuleMap {
    /// The map realized by the registry.
    pub closed spec fn view(&self) -> Map<Seq<char>, Seq<char>> {
        Map::new(
            |k: Seq<char>| module_lookup(self.entries@, k) is Some,
            |k: Seq<char>| module_lookup(self.entries@, k).unwrap(),
        )
    }

    /// An empty registry.
    pub fn new() -> (r: ModuleMap)
        ensures
            r@ == Map::<Seq<char>, Seq<char>>::empty(),
    {
        let r = ModuleMap { entries: Vec::new() };
        proof {
            assert(r@ =~= Map::<Seq<char>, Seq<char>>::empty());
        }
        r
    }

    /// Register a module body under a virtual path. A path already present
    /// keeps its earlier body.
    pub fn insert(&mut self, path: String, body: String)
        ensures
            final(self)@ == if old(self)@.contains_key(path@) {
                old(self)@
            } else {
                old(self)@.insert(path@, body@)
            },
    {
        let ghost before = self.entries@;
        let ghost pair = (path, body);
        self.entries.push((path, body));
        proof {
            lemma_module_lookup_push(before, pair);
            if old(self)@.contains_key(pair.0@) {
                assert(self@ =~= old(self)@);
            } else {
                assert(self@ =~= old(self)@.insert(pair.0@, pair.1@));
            }
        }
    }

    /// The body registered under `path`, if any.
    pub fn get(&self, path: &str) -> (r: Option<String>)
        ensures
            match r {
                Some(body) => self@.contains_key(path@) && body@ == self@[path@],
                None => !self@.contains_key(path@),
            },
    {
        let n = self.entries.len();
        let mut j: usize = 0;
        while j < n
            invariant
                n == self.entries@.len(),
                j <= n,
                forall|k: int| 0 <= k < j ==> self.entries@[k].0@ != path@,
            decreases n - j,
        {
            if str_eq(self.entries[j].0.as_str(), path) {
                proof {
                    lemma_module_lookup_at(self.entries@, path@, j as int);
                }
                return Some(self.entries[j].1.clone());
            }
            j += 1;
        }
        proof {
            lemma_module_lookup_none(self.entries@, path@);
        }
        None
    }
}

/// Why a virtual snippet path failed to resolve. All variants are served
/// as a not-found-class error response, never a crash.
#[derive(Clone, Copy, PartialEq, Eq, Structural, Debug)]
pub enum SnippetError {
    /// No named module matched and the path holds no `/`.
    InvalidPath,
    /// The file part is not of the shape `inline<index>.js`.
    InvalidName,
    /// The index part is not a decimal numeral in range.
    InvalidIndex,
    /// No fragment group has the given name.
    UnknownGroup,
    /// The index is past the end of the group.
    IndexOutOfBounds,
}

impl SnippetError {
    /// A short description of the failure, for the error response and the
    /// server-side log line.
    pub fn message(&self) -> (r: &'static str)
        ensures
            r@ == match self {
                SnippetError::InvalidPath => "invalid snippet path"@,
                SnippetError::InvalidName => "invalid snippet name in path"@,
                SnippetError::InvalidIndex => "invalid index"@,
                SnippetError::UnknownGroup => "invalid snippet name"@,
                SnippetError::IndexOutOfBounds => "snippet index out of bounds"@,
            },
    {
        match self {
            SnippetError::InvalidPath => "invalid snippet path",
            SnippetError::InvalidName => "invalid snippet name in path",
            SnippetError::InvalidIndex => "invalid index",
            SnippetError::UnknownGroup => "invalid snippet name",
            SnippetError::IndexOutOfBounds => "snippet index out of bounds",
        }
    }
}

/// The file part of an inline snippet path: `inline`, then at least one
/// character of index, then `.js`.
pub open spec fn well_formed_inline_name(file: Seq<char>) -> bool {
    &&& file.len() >= "inline"@.len() + ".js"@.len()
    &&& occurs_at(file, "inline"@, 0)
    &&& occurs_at(file, ".js"@, file.len() - ".js"@.len())
}

/// The index part of an inline snippet file name.
pub open spec fn inline_index_part(file: Seq<char>) -> Seq<char> {
    file.subrange("inline"@.len() as int, file.len() - ".js"@.len())
}

/// Resolution of a virtual path against the two registries: an exact named
/// module match wins; otherwise the path is split at its first `/` into a
/// group name and an `inline<index>.js` file name, and the index selects a
/// fragment of the group.
pub open spec fn spec_resolve(
    path: Seq<char>,
    modules: Map<Seq<char>, Seq<char>>,
    groups: Map<Seq<char>, Seq<Seq<char>>>,
) -> Result<Seq<char>, SnippetError> {
    if modules.contains_key(path) {
        Ok(modules[path])
    } else {
        match first_index(path, '/') {
            None => Err(SnippetError::InvalidPath),
            Some(i) => {
                let group = path.take(i);
                let file = path.skip(i + 1);
                if !well_formed_inline_name(file) {
                    Err(SnippetError::InvalidName)
                } else {
                    let digits = inline_index_part(file);
                    if digits.len() == 0 || !all_digits(digits) || digits_val(digits)
                        > usize::MAX {
                        Err(SnippetError::InvalidIndex)
                    } else if !groups.contains_key(group) {
                        Err(SnippetError::UnknownGroup)
                    } else if digits_val(digits) >= groups[group].len() {
                        Err(SnippetError::IndexOutOfBounds)
                    } else {
                        Ok(groups[group][digits_val(digits) as int])
                    }
                }
            },
        }
    }
}

/// Resolve a virtual snippet path to the fragment body to serve.
pub fn get_snippet_source(
    path: &str,
    local_modules: &ModuleMap,
    snippets: &SnippetGroups,
) -> (r: Result<String, SnippetError>)
    ensures
        match r {
            Ok(s) => spec_resolve(path@, local_modules@, snippets@) == Ok::<_, SnippetError>(s@),
            Err(e) => spec_resolve(path@, local_modules@, snippets@) == Err::<Seq<char>, _>(e),
        },
{
    if let Some(module) = local_modules.get(path) {
        return Ok(module);
    }

    let len = path.unicode_len();
    let slash = match find_char(path, '/') {
        Some(i) => {
            proof {
                lemma_first_index_some(path@, '/', i as int);
            }
            i
        },
        None => {
            proof {
                lemma_first_index_none(path@, '/');
            }
            return Err(SnippetError::InvalidPath);
        },
    };
    let group = substring_copy(path, 0, slash);
    let file = substring_copy(path, slash + 1, len);
    proof {
        assert(group@ =~= path@.take(slash as int));
        assert(file@ =~= path@.skip(slash + 1));
    }

    let flen = file.unicode_len();
    let prefix_len = "inline".unicode_len();
    let suffix_len = ".js".unicode_len();
    proof {
        reveal_strlit("inline");
        reveal_strlit(".js");
        assert(prefix_len == 6 && suffix_len == 3);
    }
    if flen < prefix_len + suffix_len || !starts_with_at(file.as_str(), "inline", 0)
        || !starts_with_at(file.as_str(), ".js", flen - suffix_len) {
        return Err(SnippetError::InvalidName);
    }

    let digits = substring_copy(file.as_str(), prefix_len, flen - suffix_len);
    proof {
        assert(digits@ =~= inline_index_part(file@));
    }
    let index = match parse_usize_digits(digits.as_str()) {
        Some(n) => n,
        None => {
            return Err(SnippetError::InvalidIndex);
        },
    };

    let group_size = match snippets.group_len(group.as_str()) {
        Some(n) => n,
        None => {
            return Err(SnippetError::UnknownGroup);
        },
    };
    if index >= group_size {
        return Err(SnippetError::IndexOutOfBounds);
    }
    match snippets.fragment_at(group.as_str(), index) {
        Some(body) => Ok(body),
        None => {
            // unreachable: the group exists and the index is in range
            proof {
                assert(false);
            }
            Err(SnippetError::IndexOutOfBounds)
        },
    }
}

impl SnippetGroups {
    /// The map realized by the registry.
    pub closed spec fn view(&self) -> Map<Seq<char>, Seq<Seq<char>>> {
        Map::new(
            |k: Seq<char>| group_lookup(self.entries@, k) is Some,
            |k: Seq<char>| group_lookup(self.entries@, k).unwrap(),
        )
    }

    /// An empty registry.
    pub fn new() -> (r: SnippetGroups)
        ensures
            r@ == Map::<Seq<char>, Seq<Seq<char>>>::empty(),
    {
        let r = SnippetGroups { entries: Vec::new() };
        proof {
            assert(r@ =~= Map::<Seq<char>, Seq<Seq<char>>>::empty());
        }
        r
    }

    /// Register a group's ordered fragment bodies under its name. A name
    /// already present keeps its earlier fragments.
    pub fn insert(&mut self, name: String, fragments: Vec<String>)
        ensures
            final(self)@ == if old(self)@.contains_key(name@) {
                old(self)@
            } else {
                old(self)@.insert(name@, fragments.deep_view())
            },
    {
        let ghost before = self.entries@;
        let ghost pair = (name, fragments);
        self.entries.push((name, fragments));
        proof {
            lemma_group_lookup_push(before, pair);
            if old(self)@.contains_key(pair.0@) {
                assert(self@ =~= old(self)@);
            } else {
                assert(self@ =~= old(self)@.insert(pair.0@, pair.1.deep_view()));
            }
        }
    }

    /// The number of fragments in the group named `name`, if the group
    /// exists.
    pub fn group_len(&self, name: &str) -> (r: Option<usize>)
        ensures
            match r {
                Some(n) => self@.contains_key(name@) && n == self@[name@].len(),
                None => !self@.contains_key(name@),
            },
    {
        let n = self.entries.len();
        let mut j: usize = 0;
        while j < n
            invariant
                n == self.entries@.len(),
                j <= n,
                forall|k: int| 0 <= k < j ==> self.entries@[k].0@ != name@,
            decreases n - j,
        {
            if str_eq(self.entries[j].0.as_str(), name) {
                proof {
                    lemma_group_lookup_at(self.entries@, name@, j as int);
                }
                return Some(self.entries[j].1.len());
            }
            j += 1;
        }
        proof {
            lemma_group_lookup_none(self.entries@, name@);
        }
        None
    }

    /// A copy of fragment `i` of the group named `name`.
    pub fn fragment_at(&self, name: &str, i: usize) -> (r: Option<String>)
        ensures
            match r {
                Some(body) => self@.contains_key(name@) && i < self@[name@].len() && body@
                    == self@[name@][i as int],
                None => !self@.contains_key(name@) || i >= self@[name@].len(),
            },
    {
        let n = self.entries.len();
        let mut j: usize = 0;
        while j < n
            invariant
                n == self.entries@.len(),
                j <= n,
                forall|k: int| 0 <= k < j ==> self.entries@[k].0@ != name@,
            decreases n - j,
        {
            if str_eq(self.entries[j].0.as_str(), name) {
                proof {
                    lemma_group_lookup_at(self.entries@, name@, j as int);
                }
                if i < self.entries[j].1.len() {
                    return Some(self.entries[j].1[i].clone());
                } else {
                    return None;
                }
            }
            j += 1;
        }
        proof {
            lemma_group_lookup_none(self.entries@, name@);
        }
        None
    }
}

proof fn lemma_group_lookup_push_one(
    entries: Seq<(String, Vec<String>)>,
    pair: (String, Vec<String>),
    q: Seq<char>,
)
    ensures
        group_lookup(entries.push(pair), q) == (if group_lookup(entries, q) is Some {
            group_lookup(entries, q)
        } else if q == pair.0@ {
            Some(pair.1.deep_view())
        } else {
            None::<Seq<Seq<char>>>
        }),
    decreases entries.len(),
{
    let p = entries.push(pair);
    if entries.len() == 0 {
        assert(p[0] == pair);
        assert(p.skip(1) =~= Seq::<(String, Vec<String>)>::empty());
        assert(group_lookup(p.skip(1), q) is None);
    } else {
        lemma_group_lookup_push_one(entries.skip(1), pair, q);
        assert(p.skip(1) =~= entries.skip(1).push(pair));
        assert(group_lookup(p.skip(1), q) == group_lookup(entries.skip(1).push(pair), q));
        assert(p[0] == entries[0]);
    }
}

proof fn lemma_group_lookup_push(entries: Seq<(String, Vec<String>)>, pair: (String, Vec<String>))
    ensures
        forall|q: Seq<char>|
            #[trigger] group_lookup(entries.push(pair), q) == (
            if group_lookup(entries, q) is Some {
                group_lookup(entries, q)
            } else if q == pair.0@ {
                Some(pair.1.deep_view())
            } else {
                None::<Seq<Seq<char>>>
            }),
{
    assert forall|q: Seq<char>|
        #[trigger] group_lookup(entries.push(pair), q) == (
        if group_lookup(entries, q) is Some {
            group_lookup(entries, q)
        } else if q == pair.0@ {
            Some(pair.1.deep_view())
        } else {
            None::<Seq<Seq<char>>>
        }) by {
        lemma_group_lookup_push_one(entries, pair, q);
    }
}

proof fn lemma_module_lookup_push_one(
    entries: Seq<(String, String)>,
    pair: (String, String),
    q: Seq<char>,
)
    ensures
        module_lookup(entries.push(pair), q) == (if module_lookup(entries, q) is Some {
            module_lookup(entries, q)
        } else if q == pair.0@ {
            Some(pair.1@)
        } else {
            None::<Seq<char>>
        }),
    decreases entries.len(),
{
    let p = entries.push(pair);
    if entries.len() == 0 {
        assert(p[0] == pair);
        assert(p.skip(1) =~= Seq::<(String, String)>::empty());
        assert(module_lookup(p.skip(1), q) is None);
    } else {
        lemma_module_lookup_push_one(entries.skip(1), pair, q);
        assert(p.skip(1) =~= entries.skip(1).push(pair));
        assert(module_lookup(p.skip(1), q) == module_lookup(entries.skip(1).push(pair), q));
        assert(p[0] == entries[0]);
    }
}

proof fn lemma_module_lookup_push(entries: Seq<(String, String)>, pair: (String, String))
    ensures
        forall|q: Seq<char>|
            #[trigger] module_lookup(entries.push(pair), q) == (
            if module_lookup(entries, q) is Some {
                module_lookup(entries, q)
            } else if q == pair.0@ {
                Some(pair.1@)
            } else {
                None::<Seq<char>>
            }),
{
    assert forall|q: Seq<char>|
        #[trigger] module_lookup(entries.push(pair), q) == (
        if module_lookup(entries, q) is Some {
            module_lookup(entries, q)
        } else if q == pair.0@ {
            Some(pair.1@)
        } else {
            None::<Seq<char>>
        }) by {
        lemma_module_lookup_push_one(entries, pair, q);
    }
}

} // verus!
