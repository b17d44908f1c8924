//! The TOML files of a project: `project.toml`, `requirement.toml` and the
//! `adamantium_packet.toml` manifest of an installed package, read as plain
//! key/value documents, and the source declarations a package provides.

#![verifier::loop_isolation(false)]

use crate::project::{
    github_owner, github_path, github_repository, split_github_path, valid_github_owner,
    valid_github_repository, Package,
};
use crate::text::{chars_of, concat2, concat3, concat4, owned, str_eq, is_ascii_digit};
use crate::types::{named_type, Type};
use toml::Value as TomlItem;
use vstd::prelude::*;

verus! {

/// A TOML value as the project rules read it: strings, arrays and tables;
/// integers, floats, booleans and dates are all `Other`.
pub enum TomlValue {
    String(String),
    Array(Vec<TomlValue>),
    Table(Vec<(String, TomlValue)>),
    Other,
}

/// A TOML document or table: its keys with their values, in key order.
pub type TomlTable = Vec<(String, TomlValue)>;

/// `toml::Value` (imported as `TomlItem`), which the `toml` crate reads a document into; it is only
/// handed to `toml_value`, which turns it into a plain value.
#[verifier::external_type_specification]
#[verifier::external_body]
pub struct ExTomlValue(TomlItem);

/// What the `toml` crate reads from a document: its top-level table as plain
/// entries (see `TomlValue`), or the text of its parse error.
pub uninterp spec fn toml_document(text: Seq<char>) -> Result<Seq<(String, TomlValue)>, Seq<char>>;

/// `<toml::Table as FromStr>::from_str` (which calls `toml::from_str`): the
/// document's top-level table, each value converted by `toml_value`, or the
/// error's text. The contract claims only that the outcome is the one that
/// `toml_document` names for the text.
#[verifier::external_body]
pub(crate) fn parse_toml(text: &str) -> (r: Result<TomlTable, String>)
    ensures
        match r {
            Ok(table) => toml_document(text@) == Ok::<Seq<(String, TomlValue)>, Seq<char>>(table@),
            Err(error) => toml_document(text@) == Err::<Seq<(String, TomlValue)>, Seq<char>>(error@),
        },
{
    match text.parse::<toml::Table>() {
        Ok(table) => Ok(table.iter().map(|(key, entry)| (key.clone(), toml_value(entry))).collect()),
        Err(error) => Err(error.to_string()),
    }
}

/// The plain form of a `toml::Value`, one variant for one: strings, arrays
/// and tables kept (their items converted in order), every other kind
/// `Other`. Only `parse_toml` uses it, for the values it converts.
#[verifier::external_body]
fn toml_value(value: &TomlItem) -> TomlValue {
    match value {
        TomlItem::String(text) => TomlValue::String(text.clone()),
        TomlItem::Array(values) => TomlValue::Array(values.iter().map(toml_value).collect()),
        TomlItem::Table(entries) => TomlValue::Table(
            entries.iter().map(|(key, entry)| (key.clone(), toml_value(entry))).collect(),
        ),
        _ => TomlValue::Other,
    }
}

/// The table of the TOML file at `path` whose text is `text`; a document
/// that does not parse is reported as `path: error`.
pub fn toml_file(path: &str, text: &str) -> (r: Result<TomlTable, String>)
    ensures
        match toml_document(text@) {
            Ok(table) => r matches Ok(read) && read@ == table,
            Err(error) => r matches Err(message) && message@ == path@ + ": "@ + error,
        },
{
    match parse_toml(text) {
        Ok(table) => Ok(table),
        Err(error) => Err(concat3(path, ": ", error.as_str())),
    }
}

/// The first position, from `k` on, of an entry with key `key`.
pub open spec fn key_index(table: Seq<(String, TomlValue)>, key: Seq<char>, k: int) -> Option<int>
    decreases table.len() - k,
{
    if k < 0 || k >= table.len() {
        None
    } else if table[k].0@ == key {
        Some(k)
    } else {
        key_index(table, key, k + 1)
    }
}

proof fn lemma_key_index(table: Seq<(String, TomlValue)>, key: Seq<char>, k: int)
    requires
        0 <= k,
    ensures
        key_index(table, key, k) matches Some(i) ==> k <= i < table.len() && table[i].0@ == key,
        key_index(table, key, k) is None ==> forall|j: int| k <= j < table.len() ==> table[j].0@ != key,
    decreases table.len() - k,
{
    if k < table.len() && table[k].0@ != key {
        lemma_key_index(table, key, k + 1);
    }
}

/// The string stored at `key`, if the entry with that key holds one.
pub open spec fn string_entry(table: Seq<(String, TomlValue)>, key: Seq<char>) -> Option<Seq<char>> {
    match key_index(table, key, 0) {
        Some(i) => match table[i].1 {
            TomlValue::String(s) => Some(s@),
            _ => None,
        },
        None => None,
    }
}

/// The index of `key` in a table.
fn lookup(table: &TomlTable, key: &str) -> (r: Option<usize>)
    ensures
        r matches Some(i) ==> i < table@.len() && table@[i as int].0@ == key@,
        r is None ==> forall|i: int| 0 <= i < table@.len() ==> table@[i].0@ != key@,
        match r {
            Some(i) => key_index(table@, key@, 0) == Some(i as int),
            None => key_index(table@, key@, 0) is None,
        },
{
    let mut i: usize = 0;
    while i < table.len()
        invariant
            i <= table@.len(),
            forall|j: int| 0 <= j < i ==> table@[j].0@ != key@,
            key_index(table@, key@, 0) == key_index(table@, key@, i as int),
        decreases table.len() - i,
    {
        if str_eq(table[i].0.as_str(), key) {
            return Some(i);
        }
        i = i + 1;
    }
    None
}

/// The string at `key`, if the table has one there.
fn string_at(table: &TomlTable, key: &str) -> (r: Option<String>)
    ensures
        match r {
            Some(s) => string_entry(table@, key@) == Some(s@),
            None => string_entry(table@, key@) is None,
        },
{
    match lookup(table, key) {
        Some(i) => match &table[i].1 {
            TomlValue::String(value) => Some(value.clone()),
            _ => None,
        },
        None => None,
    }
}

/// The number of `.` characters.
pub open spec fn dot_count(v: Seq<char>) -> nat
    decreases v.len(),
{
    if v.len() == 0 {
        0
    } else {
        dot_count(v.drop_last()) + if v.last() == '.' {
            1nat
        } else {
            0nat
        }
    }
}

/// A version `MAJOR.MINOR.PATCH`: three nonempty runs of ASCII digits
/// separated by two dots.
pub open spec fn semantic_version(v: Seq<char>) -> bool {
    &&& dot_count(v) == 2
    &&& v.len() > 0
    &&& v[0] != '.'
    &&& v.last() != '.'
    &&& forall|k: int| 0 <= k < v.len() ==> v[k] == '.' || is_ascii_digit(v[k])
    &&& forall|k: int| 0 <= k < v.len() - 1 ==> !(#[trigger] v[k] == '.' && v[k + 1] == '.')
}

/// Whether a version is `MAJOR.MINOR.PATCH` (see `semantic_version`).
fn is_semantic_version(version: &str) -> (r: bool)
    ensures
        r == semantic_version(version@),
{
    let v = chars_of(version);
    let n = v.len();
    let mut dots: usize = 0;
    let mut digits_only = true;
    let mut adjacent = false;
    let mut k: usize = 0;
    while k < n
        invariant
            v@ == version@,
            n == v@.len(),
            k <= n,
            dots == dot_count(v@.subrange(0, k as int)),
            dots <= k,
            digits_only == forall|q: int| 0 <= q < k ==> v@[q] == '.' || is_ascii_digit(v@[q]),
            adjacent == exists|q: int| 0 <= q < k - 1 && #[trigger] v@[q] == '.' && v@[q + 1] == '.',
        decreases n - k,
    {
        proof {
            assert(v@.subrange(0, k + 1).drop_last() =~= v@.subrange(0, k as int));
        }
        if v[k] == '.' {
            if k > 0 && v[k - 1] == '.' {
                adjacent = true;
            }
            dots = dots + 1;
        } else if !crate::text::ascii_digit(v[k]) {
            digits_only = false;
        }
        k = k + 1;
    }
    assert(v@.subrange(0, n as int) =~= v@);
    dots == 2 && digits_only && !adjacent && n > 0 && v[0] != '.' && v[n - 1] != '.'
}

/// Lexicographic order of character sequences (as `str` orders them).
pub open spec fn text_less(a: Seq<char>, b: Seq<char>) -> bool
    decreases a.len(),
{
    if b.len() == 0 {
        false
    } else if a.len() == 0 {
        true
    } else if a[0] != b[0] {
        a[0] < b[0]
    } else {
        text_less(a.drop_first(), b.drop_first())
    }
}

/// Whether `a` orders before `b`.
fn less_text(a: &str, b: &str) -> (r: bool)
    ensures
        r == text_less(a@, b@),
{
    let x = chars_of(a);
    let y = chars_of(b);
    let mut i: usize = 0;
    assert(x@.skip(0) =~= x@);
    assert(y@.skip(0) =~= y@);
    while i < x.len() && i < y.len() && x[i] == y[i]
        invariant
            x@ == a@,
            y@ == b@,
            i <= x@.len(),
            i <= y@.len(),
            text_less(a@, b@) == text_less(x@.skip(i as int), y@.skip(i as int)),
        decreases x.len() - i,
    {
        proof {
            assert(x@.skip(i as int).drop_first() =~= x@.skip(i + 1));
            assert(y@.skip(i as int).drop_first() =~= y@.skip(i + 1));
        }
        i = i + 1;
    }
    if i == y.len() {
        return false;
    }
    if i == x.len() {
        return true;
    }
    x[i] < y[i]
}

/// A package as plain values: its name, source and version.
pub open spec fn package_view(p: Package) -> (Seq<char>, Seq<char>, Seq<char>) {
    (p.name@, p.source@, p.version@)
}

/// The plain values of a list of packages.
pub open spec fn package_views(ps: Seq<Package>) -> Seq<(Seq<char>, Seq<char>, Seq<char>)> {
    ps.map_values(|p: Package| package_view(p))
}

/// `p` placed into `s` after every item whose key is not greater.
pub open spec fn insert_by_key<A>(s: Seq<A>, p: A, key: spec_fn(A) -> Seq<char>) -> Seq<A>
    decreases s.len(),
{
    if s.len() == 0 {
        seq![p]
    } else if text_less(key(p), key(s.last())) {
        insert_by_key(s.drop_last(), p, key).push(s.last())
    } else {
        s.push(p)
    }
}

/// The items in order of key; items with equal keys keep their order (a
/// stable sort).
pub open spec fn sorted_by_key<A>(s: Seq<A>, key: spec_fn(A) -> Seq<char>) -> Seq<A>
    decreases s.len(),
{
    if s.len() == 0 {
        seq![]
    } else {
        insert_by_key(sorted_by_key(s.drop_last(), key), s.last(), key)
    }
}

proof fn lemma_insert_by_key<A>(s: Seq<A>, p: A, key: spec_fn(A) -> Seq<char>, k: int)
    requires
        0 <= k <= s.len(),
        forall|q: int| k <= q < s.len() ==> text_less(key(p), key(#[trigger] s[q])),
        k > 0 ==> !text_less(key(p), key(s[k - 1])),
    ensures
        insert_by_key(s, p, key) == s.insert(k, p),
    decreases s.len(),
{
    if s.len() == 0 {
        assert(s.insert(k, p) =~= seq![p]);
    } else if text_less(key(p), key(s.last())) {
        if k == s.len() {
            assert(!text_less(key(p), key(s[k - 1])));
        }
        lemma_insert_by_key(s.drop_last(), p, key, k);
        assert(s.drop_last().insert(k, p).push(s.last()) =~= s.insert(k, p));
    } else {
        if k < s.len() {
            assert(text_less(key(p), key(s[s.len() - 1])));
        }
        assert(s.push(p) =~= s.insert(k, p));
    }
}

/// The name of a package given as plain values.
pub open spec fn package_name_key() -> spec_fn((Seq<char>, Seq<char>, Seq<char>)) -> Seq<char> {
    |p: (Seq<char>, Seq<char>, Seq<char>)| p.0
}

/// The packages in order of name, stably.
pub open spec fn sorted_by_name(s: Seq<(Seq<char>, Seq<char>, Seq<char>)>) -> Seq<(Seq<char>, Seq<char>, Seq<char>)> {
    sorted_by_key(s, package_name_key())
}

/// The packages sorted by name: each package goes after every one whose
/// name is not greater, so packages with equal names keep their order.
fn sort_packages(packages: Vec<Package>) -> (r: Vec<Package>)
    ensures
        r@.len() == packages@.len(),
        forall|i: int, j: int| 0 <= i < j < r@.len() ==> !text_less(r@[j].name@, r@[i].name@),
        forall|i: int| 0 <= i < r@.len() ==> packages@.contains(#[trigger] r@[i]),
        package_views(r@) == sorted_by_name(package_views(packages@)),
{
    let mut sorted: Vec<Package> = Vec::new();
    let ghost input = packages@;
    let mut rest = packages;
    assert(rest@.skip(0) =~= rest@);
    let total = rest.len();
    let mut n: usize = 0;
    while n < total
        invariant
            rest@.len() == total - n,
            total == input.len(),
            rest@ == input.skip(n as int),
            sorted@.len() == n,
            forall|i: int| 0 <= i < sorted@.len() ==> input.contains(#[trigger] sorted@[i]),
            forall|i: int, j: int|
                0 <= i < j < sorted@.len() ==> !text_less(sorted@[j].name@, sorted@[i].name@),
            package_views(sorted@) == sorted_by_name(package_views(input.take(n as int))),
        decreases total - n,
    {
        let package = rest.remove(0);
        proof {
            assert(rest@ =~= input.skip(n + 1));
        }
        let mut k: usize = sorted.len();
        while k > 0 && less_text(package.name.as_str(), sorted[k - 1].name.as_str())
            invariant
                k <= sorted@.len(),
                forall|q: int| k <= q < sorted@.len() ==> text_less(package.name@, sorted@[q].name@),
            decreases k,
        {
            k = k - 1;
        }
        let ghost names = sorted@.map_values(|p: Package| p.name@);
        proof {
            lemma_text_order(names, package.name@, k as int);
        }
        let ghost before = sorted@;
        let ghost taken = package;
        assert(taken == input[n as int]);
        proof {
            let views = package_views(before);
            assert forall|q: int| k <= q < views.len() implies text_less(package_view(taken).0, #[trigger] views[q].0) by {
                assert(views[q] == package_view(before[q]));
            }
            if k > 0 {
                assert(views[k - 1] == package_view(before[k - 1]));
            }
            lemma_insert_by_key(views, package_view(taken), package_name_key(), k as int);
            let prefix = package_views(input.take(n + 1));
            assert(prefix.drop_last() =~= package_views(input.take(n as int)));
            assert(prefix.last() == package_view(taken));
            assert(sorted_by_name(prefix) == insert_by_key(sorted_by_name(prefix.drop_last()), prefix.last(), package_name_key()));
        }
        sorted.insert(k, package);
        proof {
            assert(package_views(sorted@) =~= package_views(before).insert(k as int, package_view(taken)));
            assert forall|i: int| 0 <= i < sorted@.len() implies input.contains(#[trigger] sorted@[i]) by {
                if i < k {
                    assert(sorted@[i] == before[i]);
                } else if i == k {
                    assert(sorted@[i] == input[n as int]);
                    assert(0 <= n < input.len());
                } else {
                    assert(sorted@[i] == before[i - 1]);
                }
            }
            assert(sorted@.map_values(|p: Package| p.name@) =~= names.insert(k as int, package.name@));
            assert forall|i: int, j: int| 0 <= i < j < sorted@.len() implies !text_less(
                sorted@[j].name@,
                sorted@[i].name@,
            ) by {
                assert(sorted@.map_values(|p: Package| p.name@)[i] == sorted@[i].name@);
                assert(sorted@.map_values(|p: Package| p.name@)[j] == sorted@[j].name@);
            }
        }
        n = n + 1;
    }
    assert(sorted@.len() == total);
    assert(input.take(total as int) =~= input);
    sorted
}

/// `text_less` is asymmetric.
proof fn lemma_text_less_asymmetric(a: Seq<char>, b: Seq<char>)
    ensures
        text_less(a, b) ==> !text_less(b, a),
    decreases a.len(),
{
    if a.len() > 0 && b.len() > 0 && a[0] == b[0] {
        lemma_text_less_asymmetric(a.drop_first(), b.drop_first());
    }
}

/// `text_less` is transitive.
proof fn lemma_text_less_transitive(a: Seq<char>, b: Seq<char>, c: Seq<char>)
    ensures
        text_less(a, b) && text_less(b, c) ==> text_less(a, c),
    decreases a.len(),
{
    if a.len() > 0 && b.len() > 0 && c.len() > 0 {
        lemma_text_less_transitive(a.drop_first(), b.drop_first(), c.drop_first());
    }
}

/// Sequences that are not ordered either way are equal.
proof fn lemma_text_less_total(a: Seq<char>, b: Seq<char>)
    ensures
        !text_less(a, b) && !text_less(b, a) ==> a == b,
    decreases a.len(),
{
    if a.len() > 0 && b.len() > 0 {
        lemma_text_less_total(a.drop_first(), b.drop_first());
        if a[0] == b[0] && a.drop_first() == b.drop_first() {
            assert(a =~= seq![a[0]] + a.drop_first());
            assert(b =~= seq![b[0]] + b.drop_first());
        }
    }
}

/// "Not greater" is transitive.
proof fn lemma_text_not_less_transitive(a: Seq<char>, b: Seq<char>, c: Seq<char>)
    ensures
        !text_less(b, a) && !text_less(c, b) ==> !text_less(c, a),
{
    lemma_text_less_total(a, b);
    lemma_text_less_total(b, c);
    lemma_text_less_transitive(c, a, b);
    lemma_text_less_transitive(b, c, a);
    lemma_text_less_asymmetric(a, b);
    lemma_text_less_asymmetric(b, c);
    lemma_text_less_asymmetric(a, c);
    lemma_text_less_transitive(c, b, a);
}

/// Inserting at `k`, after the names not greater than `x` and before the
/// greater ones, keeps names in order.
proof fn lemma_text_order(names: Seq<Seq<char>>, x: Seq<char>, k: int)
    requires
        0 <= k <= names.len(),
        forall|i: int, j: int| 0 <= i < j < names.len() ==> !text_less(names[j], names[i]),
        forall|q: int| k <= q < names.len() ==> text_less(x, names[q]),
        k > 0 ==> !text_less(x, names[k - 1]),
    ensures
        forall|i: int, j: int|
            0 <= i < j < names.len() + 1 ==> !text_less(
                names.insert(k, x)[j],
                names.insert(k, x)[i],
            ),
{
    let s = names.insert(k, x);
    assert forall|i: int, j: int| 0 <= i < j < names.len() + 1 implies !text_less(s[j], s[i]) by {
        if j < k {
            assert(s[i] == names[i] && s[j] == names[j]);
        } else if j == k {
            assert(s[i] == names[i]);
            if i < k - 1 {
                lemma_text_not_less_transitive(names[i], names[k - 1], x);
            }
        } else if i < k {
            assert(s[j] == names[j - 1] && s[i] == names[i]);
        } else if i == k {
            assert(s[j] == names[j - 1]);
            lemma_text_less_asymmetric(x, names[j - 1]);
        } else {
            assert(s[i] == names[i - 1] && s[j] == names[j - 1]);
        }
    }
}


/// A package source that names a GitHub repository:
/// `https://github.com/<owner>/<name>` with a valid owner and name.
pub open spec fn repository_source(source: Seq<char>) -> bool {
    match github_path(source) {
        Some((owner, name)) => github_owner(owner) && github_repository(name),
        None => false,
    }
}

/// A package read from `requirement.toml`: a repository source whose
/// repository gives the name, and a `MAJOR.MINOR.PATCH` version.
pub open spec fn valid_package(p: Package) -> bool {
    &&& repository_source(p.source@)
    &&& semantic_version(p.version@)
    &&& match github_path(p.source@) {
        Some((_, name)) => name == p.name@,
        None => false,
    }
}

/// The package that one entry of the `[packages]` table describes, or the
/// error in it: the version must be a string, the source a GitHub
/// repository URL, and the version `MAJOR.MINOR.PATCH`.
pub open spec fn entry_package(entry: (String, TomlValue)) -> Result<(Seq<char>, Seq<char>, Seq<char>), Seq<char>> {
    let source = entry.0@;
    match entry.1 {
        TomlValue::String(version) => match github_path(source) {
            Some((owner, name)) => if github_owner(owner) && github_repository(name) {
                if semantic_version(version@) {
                    Ok((name, source, version@))
                } else {
                    Err("requirement.toml: package '"@ + source + "' version must use MAJOR.MINOR.PATCH"@)
                }
            } else {
                Err("requirement.toml: package source '"@ + source + "' must be an https://github.com/<owner>/<name> URL"@)
            },
            None => Err("requirement.toml: package source '"@ + source + "' must be an https://github.com/<owner>/<name> URL"@),
        },
        _ => Err("requirement.toml: package '"@ + source + "' version must be a string"@),
    }
}

/// The packages of the entries, in order, or the error of the first entry
/// that has one.
pub open spec fn entry_packages(entries: Seq<(String, TomlValue)>) -> Result<Seq<(Seq<char>, Seq<char>, Seq<char>)>, Seq<char>>
    decreases entries.len(),
{
    if entries.len() == 0 {
        Ok(seq![])
    } else {
        match entry_packages(entries.drop_last()) {
            Err(e) => Err(e),
            Ok(ps) => match entry_package(entries.last()) {
                Ok(p) => Ok(ps.push(p)),
                Err(e) => Err(e),
            },
        }
    }
}

/// What `requirement.toml` asks for: the packages of its `[packages]` table
/// sorted by name, or the first error.
pub open spec fn requirement_packages(table: Seq<(String, TomlValue)>) -> Result<Seq<(Seq<char>, Seq<char>, Seq<char>)>, Seq<char>> {
    match key_index(table, "packages"@, 0) {
        Some(i) => match table[i].1 {
            TomlValue::Table(values) => if exists|k: int| 0 <= k < table.len() && table[k].0@ != "packages"@ {
                Err("requirement.toml: only the [packages] table is supported"@)
            } else {
                match entry_packages(values@) {
                    Ok(ps) => Ok(sorted_by_name(ps)),
                    Err(e) => Err(e),
                }
            },
            _ => Err("requirement.toml: expected a [packages] table"@),
        },
        None => Err("requirement.toml: expected a [packages] table"@),
    }
}

/// An entry's error ends reading: the error of the first failing entry is
/// the error of the whole table.
proof fn lemma_entry_error(values: Seq<(String, TomlValue)>, e: int, j: int)
    requires
        0 <= e < j <= values.len(),
        entry_packages(values.take(e)) is Ok,
        entry_package(values[e]) is Err,
    ensures
        entry_packages(values.take(j)) == Err::<Seq<(Seq<char>, Seq<char>, Seq<char>)>, Seq<char>>(
            entry_package(values[e])->Err_0),
    decreases j - e,
{
    assert(values.take(j).drop_last() =~= values.take(j - 1));
    if j > e + 1 {
        lemma_entry_error(values, e, j - 1);
    } else {
        assert(values.take(j).last() == values[e]);
    }
}

/// Reads one entry of the `[packages]` table.
fn read_entry(entry: &(String, TomlValue)) -> (r: Result<Package, String>)
    ensures
        match r {
            Ok(p) => entry_package(*entry) == Ok::<(Seq<char>, Seq<char>, Seq<char>), Seq<char>>(package_view(p))
                && valid_package(p),
            Err(e) => entry_package(*entry) == Err::<(Seq<char>, Seq<char>, Seq<char>), Seq<char>>(e@),
        },
{
    let source = entry.0.as_str();
    let version = match &entry.1 {
        TomlValue::String(version) => version.clone(),
        _ => {
            return Err(concat3("requirement.toml: package '", source, "' version must be a string"));
        },
    };
    let name = match split_github_path(source) {
        Some((owner, name)) => {
            if valid_github_owner(owner.as_str()) && valid_github_repository(name.as_str()) {
                name
            } else {
                return Err(
                    concat3(
                        "requirement.toml: package source '",
                        source,
                        "' must be an https://github.com/<owner>/<name> URL",
                    ),
                );
            }
        },
        None => {
            return Err(
                concat3(
                    "requirement.toml: package source '",
                    source,
                    "' must be an https://github.com/<owner>/<name> URL",
                ),
            );
        },
    };
    if !is_semantic_version(version.as_str()) {
        return Err(
            concat3("requirement.toml: package '", source, "' version must use MAJOR.MINOR.PATCH"),
        );
    }
    Ok(Package { name, source: owned(source), version })
}

/// Reads the `[packages]` table of `requirement.toml`: each entry maps a
/// GitHub source to a `MAJOR.MINOR.PATCH` version; no other table is
/// allowed. The packages come sorted by name; the first error ends reading.
#[verifier::rlimit(40)]
pub fn packages(table: &TomlTable) -> (r: Result<Vec<Package>, String>)
    ensures
        r matches Ok(packages) ==> {
            &&& forall|i: int, j: int|
                0 <= i < j < packages@.len() ==> !text_less(packages@[j].name@, packages@[i].name@)
            &&& forall|i: int| 0 <= i < packages@.len() ==> valid_package(#[trigger] packages@[i])
        },
        match r {
            Ok(packages) => requirement_packages(table@) == Ok::<Seq<(Seq<char>, Seq<char>, Seq<char>)>, Seq<char>>(package_views(packages@)),
            Err(e) => requirement_packages(table@) == Err::<Seq<(Seq<char>, Seq<char>, Seq<char>)>, Seq<char>>(e@),
        },
{
    let values = match lookup(table, "packages") {
        Some(i) => match &table[i].1 {
            TomlValue::Table(values) => values,
            _ => {
                return Err(owned("requirement.toml: expected a [packages] table"));
            },
        },
        None => {
            return Err(owned("requirement.toml: expected a [packages] table"));
        },
    };
    let mut k: usize = 0;
    while k < table.len()
        invariant
            k <= table@.len(),
            forall|q: int| 0 <= q < k ==> table@[q].0@ == "packages"@,
        decreases table.len() - k,
    {
        if !str_eq(table[k].0.as_str(), "packages") {
            assert(exists|q: int| 0 <= q < table@.len() && table@[q].0@ != "packages"@);
            return Err(owned("requirement.toml: only the [packages] table is supported"));
        }
        k = k + 1;
    }
    assert(!exists|q: int| 0 <= q < table@.len() && table@[q].0@ != "packages"@);
    let mut result: Vec<Package> = Vec::new();
    let mut e: usize = 0;
    assert(values@.take(0) =~= Seq::<(String, TomlValue)>::empty());
    assert(package_views(result@) =~= Seq::<(Seq<char>, Seq<char>, Seq<char>)>::empty());
    while e < values.len()
        invariant
            forall|i: int| 0 <= i < result@.len() ==> valid_package(#[trigger] result@[i]),
            e <= values@.len(),
            entry_packages(values@.take(e as int)) == Ok::<Seq<(Seq<char>, Seq<char>, Seq<char>)>, Seq<char>>(package_views(result@)),
        decreases values.len() - e,
    {
        match read_entry(&values[e]) {
            Err(error) => {
                proof {
                    lemma_entry_error(values@, e as int, values@.len() as int);
                    assert(values@.take(values@.len() as int) =~= values@);
                }
                return Err(error);
            },
            Ok(package) => {
                proof {
                    assert(values@.take(e + 1).drop_last() =~= values@.take(e as int));
                    assert(values@.take(e + 1).last() == values@[e as int]);
                }
                let ghost before = package_views(result@);
                result.push(package);
                assert(package_views(result@) =~= before.push(package_view(result@.last())));
                e = e + 1;
            },
        }
    }
    assert(values@.take(values@.len() as int) =~= values@);
    let sorted = sort_packages(result);
    Ok(sorted)
}

/// Whether the entry at `key` is an array of strings.
pub open spec fn string_array_entry(table: Seq<(String, TomlValue)>, key: Seq<char>) -> bool {
    match key_index(table, key, 0) {
        Some(i) => match table[i].1 {
            TomlValue::Array(values) => forall|a: int| 0 <= a < values@.len() ==> values@[a] is String,
            _ => false,
        },
        None => false,
    }
}

/// The errors in `project.toml`, in order: `name` must be a valid project
/// name, `version` and `description` strings, `authors` an array of strings.
pub open spec fn project_error_list(project: Seq<(String, TomlValue)>) -> Seq<Seq<char>> {
    (match string_entry(project, "name"@) {
        Some(name) => match crate::project::project_name_error(name) {
            Some(e) => seq!["project.toml: "@ + e],
            None => seq![],
        },
        None => seq!["project.toml: name must be a string"@],
    })
    + (if string_entry(project, "version"@) is None { seq!["project.toml: version must be a string"@] } else { seq![] })
    + (if string_entry(project, "description"@) is None { seq!["project.toml: description must be a string"@] } else { seq![] })
    + (if !string_array_entry(project, "authors"@) { seq!["project.toml: authors must be an array of strings"@] } else { seq![] })
}

/// The project name from `project.toml` and the errors in it: `name`,
/// `version` and `description` must be strings (the name a valid project
/// name), and `authors` an array of strings.
pub fn project_errors(project: &TomlTable) -> (r: (Option<String>, Vec<String>))
    ensures
        match r.0 {
            Some(name) => string_entry(project@, "name"@) == Some(name@),
            None => string_entry(project@, "name"@) is None,
        },
        crate::text::string_views(r.1@) == project_error_list(project@),
{
    let mut errors: Vec<String> = Vec::new();
    let name = string_at(project, "name");
    match &name {
        Some(name) => {
            if let Err(error) = crate::project::valid_project_name(name.as_str()) {
                errors.push(concat2("project.toml: ", error.as_str()));
            }
        },
        None => {
            errors.push(owned("project.toml: name must be a string"));
        },
    }
    let ghost first = crate::text::string_views(errors@);
    if string_at(project, "version").is_none() {
        errors.push(owned("project.toml: version must be a string"));
    }
    let ghost second = crate::text::string_views(errors@);
    if string_at(project, "description").is_none() {
        errors.push(owned("project.toml: description must be a string"));
    }
    let ghost third = crate::text::string_views(errors@);
    let authors_ok = match lookup(project, "authors") {
        Some(i) => match &project[i].1 {
            TomlValue::Array(values) => {
                let mut all = true;
                let mut a: usize = 0;
                while a < values.len()
                    invariant
                        a <= values@.len(),
                        all == forall|b: int| 0 <= b < a ==> values@[b] is String,
                    decreases values.len() - a,
                {
                    match &values[a] {
                        TomlValue::String(_) => {},
                        _ => {
                            all = false;
                        },
                    }
                    a = a + 1;
                }
                all
            },
            _ => false,
        },
        None => false,
    };
    if !authors_ok {
        errors.push(owned("project.toml: authors must be an array of strings"));
    }
    proof {
        let version_part: Seq<Seq<char>> = if string_entry(project@, "version"@) is None { seq!["project.toml: version must be a string"@] } else { seq![] };
        let description_part: Seq<Seq<char>> = if string_entry(project@, "description"@) is None { seq!["project.toml: description must be a string"@] } else { seq![] };
        let authors_part: Seq<Seq<char>> = if !string_array_entry(project@, "authors"@) { seq!["project.toml: authors must be an array of strings"@] } else { seq![] };
        assert(second =~= first + version_part);
        assert(third =~= second + description_part);
        assert(crate::text::string_views(errors@) =~= third + authors_part);
    }
    (name, errors)
}

/// Every error of a project's configuration: those of `project.toml`, then
/// the one of `requirement.toml`'s packages, if any.
pub open spec fn configuration_errors(project: Seq<(String, TomlValue)>, requirements: Seq<(String, TomlValue)>) -> Seq<Seq<char>> {
    project_error_list(project) + match requirement_packages(requirements) {
        Ok(_) => Seq::<Seq<char>>::empty(),
        Err(e) => seq![e],
    }
}

/// Checks the configuration of a project: `project.toml` and the packages of
/// `requirement.toml`. Every error found is reported together; otherwise the
/// project's name comes back.
pub fn project_configuration(project: &TomlTable, requirements: &TomlTable) -> (r: Result<String, String>)
    ensures
        r matches Ok(name) ==> string_entry(project@, "name"@) == Some(name@)
            && project_error_list(project@).len() == 0,
        project_error_list(project@).len() > 0 ==> r is Err,
        r is Ok <==> configuration_errors(project@, requirements@).len() == 0 && string_entry(
            project@,
            "name"@,
        ) is Some,
        r matches Err(e) ==> e@ == crate::diagnostics::error_report(
            configuration_errors(project@, requirements@),
        ),
{
    let (name, mut errors) = project_errors(project);
    let ghost first = crate::text::string_views(errors@);
    if let Err(error) = packages(requirements) {
        errors.push(error);
        assert(crate::text::string_views(errors@) =~= first.push(error@));
    }
    assert(crate::text::string_views(errors@) =~= configuration_errors(project@, requirements@));
    if errors.len() > 0 {
        return Err(crate::diagnostics::multiple_errors(errors));
    }
    match name {
        Some(name) => Ok(name),
        None => {
            assert(crate::text::string_views(errors@).len() == 0);
            Err(crate::diagnostics::multiple_errors(errors))
        },
    }
}

/// A function that a package provides: its name, the command that runs it,
/// and its parameter and result types.
pub struct ManifestFunction {
    pub name: String,
    pub command: String,
    pub parameters: Vec<Type>,
    pub result: Type,
}

/// The manifest of an installed package: its module name, its filesystem
/// permission (0 none, 1 read, 2 read-write) and its functions by name.
pub struct Manifest {
    pub name: String,
    pub filesystem: u32,
    pub functions: Vec<ManifestFunction>,
}

/// An identifier: an ASCII letter or `_`, then ASCII letters, digits or `_`.
pub fn identifier(name: &str) -> (r: bool)
    ensures
        r == crate::project::test_name(name@),
{
    let chars = chars_of(name);
    crate::project::is_identifier(&chars)
}

fn at_path(path: &str, message: &str) -> (r: String)
    ensures
        r@ == at_path_text(path@, message@),
{
    concat3(path, ": ", message)
}

/// `path: message`.
pub open spec fn at_path_text(path: Seq<char>, message: Seq<char>) -> Seq<char> {
    path + ": "@ + message
}

/// The type a manifest names: a built-in type other than `f128`, or the
/// error.
pub open spec fn manifest_type_result(path: Seq<char>, name: Option<Seq<char>>) -> Result<Type, Seq<char>> {
    match name {
        None => Err(at_path_text(path, "package type must be a string"@)),
        Some(n) => match named_type(n) {
            None => Err(at_path_text(path, "unsupported package type '"@ + n + "'"@)),
            Some(t) => if t == Type::F128 {
                Err(at_path_text(path, "f128 is not supported by wasi-command-v1"@))
            } else {
                Ok(t)
            },
        },
    }
}

/// The type a manifest names: a built-in type other than `f128`.
pub fn manifest_type(path: &str, name: Option<&str>) -> (r: Result<Type, String>)
    ensures
        r matches Ok(t) ==> name matches Some(n) && named_type(n@) == Some(t) && t != Type::F128,
        name matches Some(n) && named_type(n@) matches Some(t) && t != Type::F128 ==> r is Ok,
        match r {
            Ok(t) => manifest_type_result(path@, match name { Some(n) => Some(n@), None => None }) == Ok::<Type, Seq<char>>(t),
            Err(e) => manifest_type_result(path@, match name { Some(n) => Some(n@), None => None }) == Err::<Type, Seq<char>>(e@),
        },
{
    let name = match name {
        Some(name) => name,
        None => {
            return Err(at_path(path, "package type must be a string"));
        },
    };
    let ty = match Type::parse(name) {
        Some(ty) => ty,
        None => {
            let message = concat3("unsupported package type '", name, "'");
            return Err(at_path(path, message.as_str()));
        },
    };
    if ty == Type::F128 {
        return Err(at_path(path, "f128 is not supported by wasi-command-v1"));
    }
    Ok(ty)
}

/// A manifest function as plain values: name, command, parameter types and
/// result type.
pub open spec fn function_view(f: ManifestFunction) -> (Seq<char>, Seq<char>, Seq<Type>, Type) {
    (f.name@, f.command@, f.parameters@, f.result)
}

/// The plain values of manifest functions.
pub open spec fn function_views(fs: Seq<ManifestFunction>) -> Seq<(Seq<char>, Seq<char>, Seq<Type>, Type)> {
    fs.map_values(|f: ManifestFunction| function_view(f))
}

/// The name of a manifest function given as plain values.
pub open spec fn function_name_key() -> spec_fn((Seq<char>, Seq<char>, Seq<Type>, Type)) -> Seq<char> {
    |f: (Seq<char>, Seq<char>, Seq<Type>, Type)| f.0
}

/// The manifest's functions sorted by name.
fn sort_functions(functions: Vec<ManifestFunction>) -> (r: Vec<ManifestFunction>)
    ensures
        r@.len() == functions@.len(),
        forall|i: int, j: int| 0 <= i < j < r@.len() ==> !text_less(r@[j].name@, r@[i].name@),
        forall|i: int| 0 <= i < r@.len() ==> functions@.contains(#[trigger] r@[i]),
        function_views(r@) == sorted_by_key(function_views(functions@), function_name_key()),
{
    let mut sorted: Vec<ManifestFunction> = Vec::new();
    let ghost input = functions@;
    let mut rest = functions;
    assert(rest@.skip(0) =~= rest@);
    let total = rest.len();
    let mut n: usize = 0;
    while n < total
        invariant
            rest@.len() == total - n,
            total == input.len(),
            rest@ == input.skip(n as int),
            sorted@.len() == n,
            forall|i: int| 0 <= i < sorted@.len() ==> input.contains(#[trigger] sorted@[i]),
            forall|i: int, j: int|
                0 <= i < j < sorted@.len() ==> !text_less(sorted@[j].name@, sorted@[i].name@),
            function_views(sorted@) == sorted_by_key(function_views(input.take(n as int)), function_name_key()),
        decreases total - n,
    {
        let function = rest.remove(0);
        proof {
            assert(rest@ =~= input.skip(n + 1));
        }
        let mut k: usize = sorted.len();
        while k > 0 && less_text(function.name.as_str(), sorted[k - 1].name.as_str())
            invariant
                k <= sorted@.len(),
                forall|q: int| k <= q < sorted@.len() ==> text_less(function.name@, sorted@[q].name@),
            decreases k,
        {
            k = k - 1;
        }
        let ghost names = sorted@.map_values(|f: ManifestFunction| f.name@);
        proof {
            lemma_text_order(names, function.name@, k as int);
        }
        let ghost before = sorted@;
        let ghost taken = function;
        assert(taken == input[n as int]);
        proof {
            let views = function_views(before);
            assert forall|q: int| k <= q < views.len() implies text_less(
                function_name_key()(function_view(taken)),
                function_name_key()(#[trigger] views[q]),
            ) by {
                assert(views[q] == function_view(before[q]));
            }
            if k > 0 {
                assert(views[k - 1] == function_view(before[k - 1]));
            }
            lemma_insert_by_key(views, function_view(taken), function_name_key(), k as int);
            let prefix = function_views(input.take(n + 1));
            assert(prefix.drop_last() =~= function_views(input.take(n as int)));
            assert(prefix.last() == function_view(taken));
        }
        sorted.insert(k, function);
        proof {
            assert(function_views(sorted@) =~= function_views(before).insert(k as int, function_view(taken)));
            assert forall|i: int| 0 <= i < sorted@.len() implies input.contains(#[trigger] sorted@[i]) by {
                if i < k {
                    assert(sorted@[i] == before[i]);
                } else if i == k {
                    assert(sorted@[i] == input[n as int]);
                    assert(0 <= n < input.len());
                } else {
                    assert(sorted@[i] == before[i - 1]);
                }
            }
            assert(sorted@.map_values(|f: ManifestFunction| f.name@) =~= names.insert(
                k as int,
                function.name@,
            ));
            assert forall|i: int, j: int| 0 <= i < j < sorted@.len() implies !text_less(
                sorted@[j].name@,
                sorted@[i].name@,
            ) by {
                assert(sorted@.map_values(|f: ManifestFunction| f.name@)[i] == sorted@[i].name@);
                assert(sorted@.map_values(|f: ManifestFunction| f.name@)[j] == sorted@[j].name@);
            }
        }
        n = n + 1;
    }
    assert(sorted@.len() == total);
    assert(input.take(total as int) =~= input);
    sorted
}

/// The parameter types of a manifest function, or the first error.
pub open spec fn parameter_types(path: Seq<char>, values: Seq<TomlValue>) -> Result<Seq<Type>, Seq<char>>
    decreases values.len(),
{
    if values.len() == 0 {
        Ok(seq![])
    } else {
        match parameter_types(path, values.drop_last()) {
            Err(e) => Err(e),
            Ok(types) => match manifest_type_result(
                path,
                match values.last() {
                    TomlValue::String(t) => Some(t@),
                    _ => None,
                },
            ) {
                Ok(t) => Ok(types.push(t)),
                Err(e) => Err(e),
            },
        }
    }
}

/// The function that a `[functions.NAME]` entry declares: an identifier
/// name, a table with an array of at most eight `parameters` (none of them
/// `None`), a `result` type and an optional `command` (the name by default).
pub open spec fn function_result(path: Seq<char>, name: Seq<char>, entry: TomlValue) -> Result<(Seq<char>, Seq<char>, Seq<Type>, Type), Seq<char>> {
    if !crate::project::test_name(name) {
        Err(at_path_text(path, "invalid function name '"@ + name + "'"@))
    } else {
        match entry {
            TomlValue::Table(e) => match key_index(e@, "parameters"@, 0) {
                Some(i) => match e@[i].1 {
                    TomlValue::Array(values) => match parameter_types(path, values@) {
                        Err(m) => Err(m),
                        Ok(types) => if types.contains(Type::NoneType) {
                            Err(at_path_text(path, "functions."@ + name + " cannot use None as a parameter"@))
                        } else if types.len() > 8 {
                            Err(at_path_text(path, "functions."@ + name + " has more than 8 parameters"@))
                        } else {
                            match manifest_type_result(path, string_entry(e@, "result"@)) {
                                Err(m) => Err(m),
                                Ok(result) => Ok((
                                    name,
                                    match string_entry(e@, "command"@) {
                                        Some(c) => c,
                                        None => name,
                                    },
                                    types,
                                    result,
                                )),
                            }
                        },
                    },
                    _ => Err(at_path_text(path, "functions."@ + name + ".parameters must be an array"@)),
                },
                None => Err(at_path_text(path, "functions."@ + name + ".parameters must be an array"@)),
            },
            _ => Err(at_path_text(path, "functions."@ + name + " must be a table"@)),
        }
    }
}

/// The functions of the `[functions]` table in order, or the first error.
pub open spec fn functions_result(path: Seq<char>, table: Seq<(String, TomlValue)>) -> Result<Seq<(Seq<char>, Seq<char>, Seq<Type>, Type)>, Seq<char>>
    decreases table.len(),
{
    if table.len() == 0 {
        Ok(seq![])
    } else {
        match functions_result(path, table.drop_last()) {
            Err(e) => Err(e),
            Ok(fs) => match function_result(path, table.last().0@, table.last().1) {
                Ok(f) => Ok(fs.push(f)),
                Err(e) => Err(e),
            },
        }
    }
}

/// Reads one `[functions.NAME]` entry.
fn manifest_function(path: &str, name: &String, entry: &TomlValue) -> (r: Result<
    ManifestFunction,
    String,
>)
    ensures
        match r {
            Ok(f) => function_result(path@, name@, *entry) == Ok::<(Seq<char>, Seq<char>, Seq<Type>, Type), Seq<char>>(function_view(f)),
            Err(e) => function_result(path@, name@, *entry) == Err::<(Seq<char>, Seq<char>, Seq<Type>, Type), Seq<char>>(e@),
        },
{
    if !identifier(name.as_str()) {
        let message = concat3("invalid function name '", name.as_str(), "'");
        return Err(at_path(path, message.as_str()));
    }
    let entry = match entry {
        TomlValue::Table(entry) => entry,
        _ => {
            let message = concat3("functions.", name.as_str(), " must be a table");
            return Err(at_path(path, message.as_str()));
        },
    };
    let values = match lookup(entry, "parameters") {
        Some(i) => match &entry[i].1 {
            TomlValue::Array(values) => values,
            _ => {
                let message = concat3("functions.", name.as_str(), ".parameters must be an array");
                return Err(at_path(path, message.as_str()));
            },
        },
        None => {
            let message = concat3("functions.", name.as_str(), ".parameters must be an array");
            return Err(at_path(path, message.as_str()));
        },
    };
    let mut parameters: Vec<Type> = Vec::new();
    let mut p: usize = 0;
    assert(values@.take(0) =~= Seq::<TomlValue>::empty());
    while p < values.len()
        invariant
            p <= values@.len(),
            parameter_types(path@, values@.take(p as int)) == Ok::<Seq<Type>, Seq<char>>(parameters@),
        decreases values.len() - p,
    {
        proof {
            assert(values@.take(p + 1).drop_last() =~= values@.take(p as int));
            assert(values@.take(p + 1).last() == values@[p as int]);
        }
        let read = match &values[p] {
            TomlValue::String(text) => manifest_type(path, Some(text.as_str())),
            _ => manifest_type(path, None),
        };
        let ty = match read {
            Ok(ty) => ty,
            Err(error) => {
                proof {
                    lemma_parameter_error(path@, values@, p as int, values@.len() as int);
                    assert(values@.take(values@.len() as int) =~= values@);
                }
                return Err(error);
            },
        };
        parameters.push(ty);
        p = p + 1;
    }
    assert(values@.take(values@.len() as int) =~= values@);
    let mut q: usize = 0;
    while q < parameters.len()
        invariant
            q <= parameters@.len(),
            forall|k: int| 0 <= k < q ==> parameters@[k] != Type::NoneType,
        decreases parameters.len() - q,
    {
        if parameters[q] == Type::NoneType {
            let message = concat3("functions.", name.as_str(), " cannot use None as a parameter");
            return Err(at_path(path, message.as_str()));
        }
        q = q + 1;
    }
    assert(!parameters@.contains(Type::NoneType));
    if parameters.len() > 8 {
        let message = concat3("functions.", name.as_str(), " has more than 8 parameters");
        return Err(at_path(path, message.as_str()));
    }
    let result = match string_at(entry, "result") {
        Some(text) => manifest_type(path, Some(text.as_str()))?,
        None => manifest_type(path, None)?,
    };
    let command = match string_at(entry, "command") {
        Some(command) => command,
        None => name.clone(),
    };
    Ok(ManifestFunction { name: name.clone(), command, parameters, result })
}

proof fn lemma_parameter_error(path: Seq<char>, values: Seq<TomlValue>, e: int, j: int)
    requires
        0 <= e < j <= values.len(),
        parameter_types(path, values.take(e)) is Ok,
        manifest_type_result(path, match values[e] { TomlValue::String(t) => Some(t@), _ => None }) is Err,
    ensures
        parameter_types(path, values.take(j)) == Err::<Seq<Type>, Seq<char>>(
            manifest_type_result(path, match values[e] { TomlValue::String(t) => Some(t@), _ => None })->Err_0),
    decreases j - e,
{
    assert(values.take(j).drop_last() =~= values.take(j - 1));
    if j > e + 1 {
        lemma_parameter_error(path, values, e, j - 1);
    } else {
        assert(values.take(j).last() == values[e]);
    }
}

proof fn lemma_function_error(path: Seq<char>, table: Seq<(String, TomlValue)>, e: int, j: int)
    requires
        0 <= e < j <= table.len(),
        functions_result(path, table.take(e)) is Ok,
        function_result(path, table[e].0@, table[e].1) is Err,
    ensures
        functions_result(path, table.take(j)) == Err::<Seq<(Seq<char>, Seq<char>, Seq<Type>, Type)>, Seq<char>>(
            function_result(path, table[e].0@, table[e].1)->Err_0),
    decreases j - e,
{
    assert(table.take(j).drop_last() =~= table.take(j - 1));
    if j > e + 1 {
        lemma_function_error(path, table, e, j - 1);
    } else {
        assert(table.take(j).last() == table[e]);
    }
}

/// The filesystem permission a manifest grants: `none` (also when absent),
/// `read` or `read-write`, or `None` for another text.
pub open spec fn permission_level(permission: Option<Seq<char>>) -> Option<u32> {
    match permission {
        None => Some(0u32),
        Some(t) => if t == "none"@ {
            Some(0u32)
        } else if t == "read"@ {
            Some(1u32)
        } else if t == "read-write"@ {
            Some(2u32)
        } else {
            None
        },
    }
}

/// The `[permissions] filesystem` text of a manifest, if it has one.
pub open spec fn permission_text(document: Seq<(String, TomlValue)>) -> Option<Seq<char>> {
    match key_index(document, "permissions"@, 0) {
        Some(j) => match document[j].1 {
            TomlValue::Table(p) => string_entry(p@, "filesystem"@),
            _ => None,
        },
        None => None,
    }
}

/// What a package manifest declares: the module name, the filesystem
/// permission and the functions sorted by name, or the first error.
pub open spec fn manifest_result(document: Seq<(String, TomlValue)>, path: Seq<char>, expected: Seq<char>) -> Result<(Seq<char>, u32, Seq<(Seq<char>, Seq<char>, Seq<Type>, Type)>), Seq<char>> {
    match key_index(document, "package"@, 0) {
        Some(i) => match document[i].1 {
            TomlValue::Table(p) => match string_entry(p@, "name"@) {
                None => Err(at_path_text(path, "package.name must be a string"@)),
                Some(name) => if !crate::project::test_name(name) {
                    Err(at_path_text(path, "invalid package module name '"@ + name + "'"@))
                } else {
                    match string_entry(p@, "version"@) {
                        None => Err(at_path_text(path, "package.version must be a string"@)),
                        Some(version) => if version != expected {
                            Err(at_path_text(path, "manifest version '"@ + version + "' does not match requirement '"@ + expected + "'"@))
                        } else {
                            match string_entry(p@, "abi"@) {
                                None => Err(at_path_text(path, "package.abi must be a string"@)),
                                Some(abi) => if abi != "wasi-command-v1"@ {
                                    Err(at_path_text(path, "unsupported package ABI"@))
                                } else {
                                    match permission_level(permission_text(document)) {
                                        None => Err(at_path_text(path, "invalid filesystem permission '"@ + permission_text(document).unwrap() + "'"@)),
                                        Some(filesystem) => match key_index(document, "functions"@, 0) {
                                            Some(k) => match document[k].1 {
                                                TomlValue::Table(t) => match functions_result(path, t@) {
                                                    Ok(fs) => Ok((name, filesystem, sorted_by_key(fs, function_name_key()))),
                                                    Err(e) => Err(e),
                                                },
                                                _ => Err(at_path_text(path, "expected [functions]"@)),
                                            },
                                            None => Err(at_path_text(path, "expected [functions]"@)),
                                        },
                                    }
                                }
                            }
                        }
                    }
                }
            },
            _ => Err(at_path_text(path, "expected [package]"@)),
        },
        None => Err(at_path_text(path, "expected [package]"@)),
    }
}

/// Reads a package manifest: `[package]` with string `name` (an identifier),
/// `version` (equal to `expected_version`) and `abi` (`wasi-command-v1`);
/// an optional `[permissions] filesystem` of `none`, `read` or `read-write`;
/// and `[functions]` whose entries give `parameters`, `result` and an
/// optional `command`. `path` prefixes the error messages.
pub fn parse_manifest(document: &TomlTable, path: &str, expected_version: &str) -> (r: Result<
    Manifest,
    String,
>)
    ensures
        r matches Ok(m) ==> {
            &&& crate::project::test_name(m.name@)
            &&& m.filesystem <= 2
            &&& forall|i: int, j: int|
                0 <= i < j < m.functions@.len() ==> !text_less(
                    m.functions@[j].name@,
                    m.functions@[i].name@,
                )
            &&& forall|f: int|
                0 <= f < m.functions@.len() ==> (#[trigger] m.functions@[f]).parameters@.len() <= 8
        },
        match r {
            Ok(m) => manifest_result(document@, path@, expected_version@)
                == Ok::<(Seq<char>, u32, Seq<(Seq<char>, Seq<char>, Seq<Type>, Type)>), Seq<char>>(
                    (m.name@, m.filesystem, function_views(m.functions@))),
            Err(e) => manifest_result(document@, path@, expected_version@)
                == Err::<(Seq<char>, u32, Seq<(Seq<char>, Seq<char>, Seq<Type>, Type)>), Seq<char>>(e@),
        },
{
    proof {
        reveal_strlit("wasi-command-v1");
        reveal_strlit("none");
        reveal_strlit("read");
        reveal_strlit("read-write");
    }
    let package = match lookup(document, "package") {
        Some(i) => match &document[i].1 {
            TomlValue::Table(package) => package,
            _ => {
                return Err(at_path(path, "expected [package]"));
            },
        },
        None => {
            return Err(at_path(path, "expected [package]"));
        },
    };
    let name = match string_at(package, "name") {
        Some(name) => name,
        None => {
            return Err(at_path(path, "package.name must be a string"));
        },
    };
    if !identifier(name.as_str()) {
        let message = concat3("invalid package module name '", name.as_str(), "'");
        return Err(at_path(path, message.as_str()));
    }
    let version = match string_at(package, "version") {
        Some(version) => version,
        None => {
            return Err(at_path(path, "package.version must be a string"));
        },
    };
    if !str_eq(version.as_str(), expected_version) {
        let mut message = concat3("manifest version '", version.as_str(), "' does not match requirement '");
        message.append(expected_version);
        message.append("'");
        return Err(at_path(path, message.as_str()));
    }
    let abi = match string_at(package, "abi") {
        Some(abi) => abi,
        None => {
            return Err(at_path(path, "package.abi must be a string"));
        },
    };
    if !str_eq(abi.as_str(), "wasi-command-v1") {
        return Err(at_path(path, "unsupported package ABI"));
    }
    let permission = match lookup(document, "permissions") {
        Some(i) => match &document[i].1 {
            TomlValue::Table(permissions) => string_at(permissions, "filesystem"),
            _ => None,
        },
        None => None,
    };
    let filesystem: u32 = match &permission {
        None => 0,
        Some(text) => if str_eq(text.as_str(), "none") {
            0
        } else if str_eq(text.as_str(), "read") {
            1
        } else if str_eq(text.as_str(), "read-write") {
            2
        } else {
            let message = concat3("invalid filesystem permission '", text.as_str(), "'");
            return Err(at_path(path, message.as_str()));
        },
    };
    let table = match lookup(document, "functions") {
        Some(i) => match &document[i].1 {
            TomlValue::Table(table) => table,
            _ => {
                return Err(at_path(path, "expected [functions]"));
            },
        },
        None => {
            return Err(at_path(path, "expected [functions]"));
        },
    };
    let mut functions: Vec<ManifestFunction> = Vec::new();
    let mut f: usize = 0;
    assert(table@.take(0) =~= Seq::<(String, TomlValue)>::empty());
    assert(function_views(functions@) =~= Seq::<(Seq<char>, Seq<char>, Seq<Type>, Type)>::empty());
    while f < table.len()
        invariant
            f <= table@.len(),
            forall|g: int| 0 <= g < functions@.len() ==> (#[trigger] functions@[g]).parameters@.len() <= 8,
            functions_result(path@, table@.take(f as int)) == Ok::<Seq<(Seq<char>, Seq<char>, Seq<Type>, Type)>, Seq<char>>(function_views(functions@)),
        decreases table.len() - f,
    {
        proof {
            assert(table@.take(f + 1).drop_last() =~= table@.take(f as int));
            assert(table@.take(f + 1).last() == table@[f as int]);
        }
        let function = match manifest_function(path, &table[f].0, &table[f].1) {
            Ok(function) => function,
            Err(error) => {
                proof {
                    lemma_function_error(path@, table@, f as int, table@.len() as int);
                    assert(table@.take(table@.len() as int) =~= table@);
                }
                return Err(error);
            },
        };
        let ghost before = function_views(functions@);
        functions.push(function);
        assert(function_views(functions@) =~= before.push(function_view(functions@.last())));
        f = f + 1;
    }
    assert(table@.take(table@.len() as int) =~= table@);
    let functions = sort_functions(functions);
    Ok(Manifest { name, filesystem, functions })
}

/// Checks a package manifest (see `parse_manifest`).
pub fn validate_manifest(document: &TomlTable, path: &str, expected_version: &str) -> (r: Result<
    (),
    String,
>)
    ensures
        match r {
            Ok(()) => manifest_result(document@, path@, expected_version@) is Ok,
            Err(e) => manifest_result(document@, path@, expected_version@)
                == Err::<(Seq<char>, u32, Seq<(Seq<char>, Seq<char>, Seq<Type>, Type)>), Seq<char>>(e@),
        },
{
    parse_manifest(document, path, expected_version)?;
    Ok(())
}


/// How generated code calls a package function: the package's WebAssembly
/// file, the command, the result type and the filesystem permission.
pub struct PackageFunction {
    pub wasm_path: String,
    pub command: String,
    pub result: Type,
    pub filesystem: u32,
}

/// A package function bound to its canonical name in the program.
pub struct Binding {
    pub canonical: String,
    pub function: PackageFunction,
}

/// The source text of a zero value of a type.
pub open spec fn default_text(ty: Type) -> Seq<char> {
    match ty {
        Type::String => "\"\""@,
        Type::Bool => "false"@,
        Type::F32 => "0:f32"@,
        Type::F64 => "0:f64"@,
        Type::I8 => "0:i8"@,
        Type::I16 => "0:i16"@,
        Type::I32 => "0:i32"@,
        Type::I64 => "0:i64"@,
        Type::U4 => "0:u4"@,
        Type::U8 => "0:u8"@,
        Type::U16 => "0:u16"@,
        Type::U32 => "0:u32"@,
        Type::U64 => "0:u64"@,
        _ => "None"@,
    }
}

/// The source text of a zero value of a type, used as a placeholder result.
pub fn default_value(ty: Type) -> (r: &'static str)
    ensures
        r@ == default_text(ty),
{
    match ty {
        Type::String => "\"\"",
        Type::Bool => "false",
        Type::F32 => "0:f32",
        Type::F64 => "0:f64",
        Type::I8 => "0:i8",
        Type::I16 => "0:i16",
        Type::I32 => "0:i32",
        Type::I64 => "0:i64",
        Type::U4 => "0:u4",
        Type::U8 => "0:u8",
        Type::U16 => "0:u16",
        Type::U32 => "0:u32",
        Type::U64 => "0:u64",
        _ => "None",
    }
}

/// The parameter list `_p0:T0,_p1:T1,...` of a package function.
pub open spec fn parameter_list(types: Seq<Type>) -> Seq<char>
    decreases types.len(),
{
    if types.len() == 0 {
        seq![]
    } else if types.len() == 1 {
        "_p"@ + crate::text::nat_digits(0) + ":"@ + types[0].spec_text()
    } else {
        parameter_list(types.drop_last()) + ","@ + "_p"@ + crate::text::nat_digits((types.len() - 1) as nat) + ":"@
            + types.last().spec_text()
    }
}

/// The source declaration that stands for a package function: a public
/// function with the same parameters whose result is a zero value.
pub open spec fn declaration_text(f: (Seq<char>, Seq<char>, Seq<Type>, Type)) -> Seq<char> {
    "pub fun "@ + f.0 + "("@ + parameter_list(f.2) + ")"@ + if f.3 != Type::NoneType {
        " result:"@ + f.3.spec_text() + " { result = "@ + default_text(f.3) + "; }\n"@
    } else {
        " result:None {}\n"@
    }
}

/// The declarations of several package functions, one after another.
pub open spec fn declarations_text(fs: Seq<(Seq<char>, Seq<char>, Seq<Type>, Type)>) -> Seq<char>
    decreases fs.len(),
{
    if fs.len() == 0 {
        seq![]
    } else {
        declarations_text(fs.drop_last()) + declaration_text(fs.last())
    }
}

fn function_declaration(function: &ManifestFunction, out: &mut String)
    ensures
        final(out)@ == old(out)@ + declaration_text(function_view(*function)),
{
    let ghost start = out@;
    out.append("pub fun ");
    out.append(function.name.as_str());
    out.append("(");
    let ghost head = out@;
    let mut index: usize = 0;
    while index < function.parameters.len()
        invariant
            index <= function.parameters@.len(),
            out@ == head + parameter_list(function.parameters@.take(index as int)),
        decreases function.parameters.len() - index,
    {
        let ghost before = out@;
        if index != 0 {
            out.append(",");
        }
        out.append("_p");
        out.append(crate::text::usize_text(index).as_str());
        out.append(":");
        out.append(function.parameters[index].text().as_str());
        proof {
            let next = function.parameters@.take(index + 1);
            assert(next.drop_last() =~= function.parameters@.take(index as int));
            assert(next.last() == function.parameters@[index as int]);
            if index == 0 {
                assert(function.parameters@.take(0) =~= Seq::<Type>::empty());
                assert(out@ =~= head + parameter_list(next));
            } else {
                assert(out@ =~= head + parameter_list(next));
            }
        }
        index = index + 1;
    }
    assert(function.parameters@.take(function.parameters@.len() as int) =~= function.parameters@);
    out.append(")");
    if function.result != Type::NoneType {
        out.append(" result:");
        out.append(function.result.text().as_str());
        out.append(" { result = ");
        out.append(default_value(function.result));
        out.append("; }\n");
    } else {
        out.append(" result:None {}\n");
    }
    assert(out@ =~= start + declaration_text(function_view(*function)));
}

/// The source of the module that a package provides, and the binding of
/// each of its functions to `admod__<module>__<function>`.
pub fn package_module(module: &str, wasm_path: &str, manifest: &Manifest) -> (r: (
    String,
    Vec<Binding>,
))
    ensures
        r.1@.len() == manifest.functions@.len(),
        r.0@ == declarations_text(function_views(manifest.functions@)),
        forall|f: int| 0 <= f < r.1@.len() ==> {
            let b = #[trigger] r.1@[f];
            let g = manifest.functions@[f];
            &&& b.canonical@ == crate::syntax::prefix_of(module@) + g.name@
            &&& b.function.wasm_path@ == wasm_path@
            &&& b.function.command@ == g.command@
            &&& b.function.result == g.result
            &&& b.function.filesystem == manifest.filesystem
        },
{
    let mut declarations = String::new();
    let mut bindings: Vec<Binding> = Vec::new();
    let prefix = crate::syntax::module_prefix(module);
    let mut f: usize = 0;
    while f < manifest.functions.len()
        invariant
            bindings@.len() == f,
            f <= manifest.functions@.len(),
            declarations@ == declarations_text(function_views(manifest.functions@.take(f as int))),
            forall|k: int| 0 <= k < f ==> {
                let b = #[trigger] bindings@[k];
                let g = manifest.functions@[k];
                &&& b.canonical@ == crate::syntax::prefix_of(module@) + g.name@
                &&& b.function.wasm_path@ == wasm_path@
                &&& b.function.command@ == g.command@
                &&& b.function.result == g.result
                &&& b.function.filesystem == manifest.filesystem
            },
        decreases manifest.functions.len() - f,
    {
        let function = &manifest.functions[f];
        proof {
            let next = function_views(manifest.functions@.take(f + 1));
            assert(next.drop_last() =~= function_views(manifest.functions@.take(f as int)));
            assert(next.last() == function_view(manifest.functions@[f as int]));
        }
        let canonical = concat2(prefix.as_str(), function.name.as_str());
        function_declaration(function, &mut declarations);
        bindings.push(
            Binding {
                canonical,
                function: PackageFunction {
                    wasm_path: owned(wasm_path),
                    command: function.command.clone(),
                    result: function.result,
                    filesystem: manifest.filesystem,
                },
            },
        );
        f = f + 1;
    }
    assert(manifest.functions@.take(manifest.functions@.len() as int) =~= manifest.functions@);
    (declarations, bindings)
}

} // verus!
