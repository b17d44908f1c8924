//! Project rules of the command-line tool: command suggestions by edit
//! distance, project and package names, package sources, the test-file
//! format, and what the commands print.

#![verifier::loop_isolation(false)]

use crate::text::{
    chars_of, concat2, concat3, is_ascii_alphabetic, is_ascii_alphanumeric, owned, push_char, str_eq,
};
use vstd::prelude::*;

verus! {

/// The smaller of two numbers.
pub open spec fn min_nat(a: nat, b: nat) -> nat {
    if a <= b {
        a
    } else {
        b
    }
}

/// The Levenshtein distance: the fewest single-character insertions,
/// deletions and substitutions that turn `a` into `b`.
pub open spec fn levenshtein(a: Seq<char>, b: Seq<char>) -> nat
    decreases a.len() + b.len(),
{
    if a.len() == 0 {
        b.len()
    } else if b.len() == 0 {
        a.len()
    } else {
        min_nat(
            min_nat(levenshtein(a.drop_last(), b) + 1, levenshtein(a, b.drop_last()) + 1),
            levenshtein(a.drop_last(), b.drop_last()) + if a.last() == b.last() {
                0nat
            } else {
                1nat
            },
        )
    }
}

/// The distance never exceeds the longer length.
pub proof fn lemma_levenshtein_bound(a: Seq<char>, b: Seq<char>)
    ensures
        levenshtein(a, b) <= if a.len() >= b.len() {
            a.len()
        } else {
            b.len()
        },
    decreases a.len() + b.len(),
{
    if a.len() > 0 && b.len() > 0 {
        lemma_levenshtein_bound(a.drop_last(), b.drop_last());
    }
}

/// A string is at distance zero from itself.
pub proof fn lemma_levenshtein_same(a: Seq<char>)
    ensures
        levenshtein(a, a) == 0,
    decreases a.len(),
{
    if a.len() > 0 {
        lemma_levenshtein_same(a.drop_last());
    }
}

/// The distance is symmetric.
pub proof fn lemma_levenshtein_symmetric(a: Seq<char>, b: Seq<char>)
    ensures
        levenshtein(a, b) == levenshtein(b, a),
    decreases a.len() + b.len(),
{
    if a.len() > 0 && b.len() > 0 {
        lemma_levenshtein_symmetric(a.drop_last(), b);
        lemma_levenshtein_symmetric(a, b.drop_last());
        lemma_levenshtein_symmetric(a.drop_last(), b.drop_last());
    }
}

/// The distance is zero exactly between equal strings.
pub proof fn lemma_levenshtein_zero(a: Seq<char>, b: Seq<char>)
    ensures
        levenshtein(a, b) == 0 <==> a == b,
    decreases a.len() + b.len(),
{
    if a == b {
        lemma_levenshtein_same(a);
    } else if a.len() > 0 && b.len() > 0 {
        lemma_levenshtein_zero(a.drop_last(), b.drop_last());
        if levenshtein(a, b) == 0 {
            assert(a.last() == b.last());
            assert(a.drop_last() == b.drop_last());
            assert(a =~= a.drop_last().push(a.last()));
            assert(b =~= b.drop_last().push(b.last()));
            assert(a =~= b);
        }
    } else if a.len() == 0 {
        assert(b.len() > 0) by {
            if b.len() == 0 {
                assert(a =~= b);
            }
        }
    } else {
        assert(a.len() > 0);
    }
}

/// The Levenshtein distance between two strings, counted in characters.
pub fn edit_distance(left: &str, right: &str) -> (r: usize)
    requires
        left@.len() < usize::MAX,
        right@.len() < usize::MAX,
    ensures
        r == levenshtein(left@, right@),
{
    let l = chars_of(left);
    let rc = chars_of(right);
    let m = rc.len();
    let mut row: Vec<usize> = Vec::new();
    let mut j: usize = 0;
    while j <= m
        invariant
            m == rc@.len(),
            m < usize::MAX,
            j <= m + 1,
            row@.len() == j,
            forall|k: int| 0 <= k < j ==> row@[k] == k,
        decreases m + 1 - j,
    {
        row.push(j);
        j = j + 1;
    }
    proof {
        assert forall|k: int| 0 <= k <= m implies row@[k] == levenshtein(
            l@.subrange(0, 0),
            rc@.subrange(0, k),
        ) by {}
    }
    let mut i: usize = 0;
    while i < l.len()
        invariant
            l@ == left@,
            rc@ == right@,
            m == rc@.len(),
            l@.len() < usize::MAX,
            m < usize::MAX,
            i <= l@.len(),
            row@.len() == m + 1,
            forall|k: int| 0 <= k <= m ==> #[trigger] row@[k] == levenshtein(
                l@.subrange(0, i as int),
                rc@.subrange(0, k),
            ),
        decreases l.len() - i,
    {
        let c = l[i];
        let ghost before = l@.subrange(0, i as int);
        let ghost after = l@.subrange(0, i + 1);
        proof {
            assert(after.drop_last() =~= before);
            assert(after.last() == c);
            assert(rc@.subrange(0, 0).len() == 0);
        }
        let mut previous = row[0];
        row.set(0, i + 1);
        let mut k: usize = 0;
        while k < m
            invariant
                l@ == left@,
                rc@ == right@,
                m == rc@.len(),
                l@.len() < usize::MAX,
                m < usize::MAX,
                i < l@.len(),
                k <= m,
                row@.len() == m + 1,
                before == l@.subrange(0, i as int),
                after == l@.subrange(0, i + 1),
                after.drop_last() == before,
                after.last() == c,
                previous == levenshtein(before, rc@.subrange(0, k as int)),
                forall|q: int| 0 <= q <= k ==> #[trigger] row@[q] == levenshtein(
                    after,
                    rc@.subrange(0, q),
                ),
                forall|q: int| k < q <= m ==> #[trigger] row@[q] == levenshtein(
                    before,
                    rc@.subrange(0, q),
                ),
            decreases m - k,
        {
            let d = rc[k];
            let ghost shorter = rc@.subrange(0, k as int);
            let ghost longer = rc@.subrange(0, k + 1);
            proof {
                assert(longer.drop_last() =~= shorter);
                assert(longer.last() == d);
                lemma_levenshtein_bound(before, shorter);
                lemma_levenshtein_bound(after, shorter);
                lemma_levenshtein_bound(before, longer);
            }
            let replaced = previous + if c != d {
                1
            } else {
                0
            };
            previous = row[k + 1];
            let deleted = row[k + 1] + 1;
            let inserted = row[k] + 1;
            let best = if deleted <= inserted {
                deleted
            } else {
                inserted
            };
            let best = if best <= replaced {
                best
            } else {
                replaced
            };
            proof {
                assert(levenshtein(after, longer) == min_nat(
                    min_nat(levenshtein(before, longer) + 1, levenshtein(after, shorter) + 1),
                    levenshtein(before, shorter) + if c == d {
                        0nat
                    } else {
                        1nat
                    },
                ));
            }
            row.set(k + 1, best);
            k = k + 1;
        }
        i = i + 1;
    }
    proof {
        assert(l@.subrange(0, l@.len() as int) =~= left@);
        assert(rc@.subrange(0, m as int) =~= right@);
    }
    row[m]
}

/// The index of the first choice at the smallest distance from `input`, if
/// that distance is at most 2.
pub open spec fn closest_index(input: Seq<char>, choices: Seq<Seq<char>>) -> Option<int> {
    if exists|i: int| 0 <= i < choices.len() && levenshtein(input, choices[i]) <= 2 {
        Some(
            choose|i: int|
                0 <= i < choices.len() && levenshtein(input, choices[i]) <= 2 && (forall|j: int|
                    0 <= j < choices.len() ==> levenshtein(input, choices[i]) <= levenshtein(
                        input,
                        choices[j],
                    )) && (forall|j: int|
                    0 <= j < i ==> levenshtein(input, choices[i]) < levenshtein(
                        input,
                        choices[j],
                    )),
        )
    } else {
        None
    }
}

/// The choice closest to `input` by edit distance: the first at the
/// smallest distance, when that distance is at most 2.
pub fn closest_name<'a>(input: &str, choices: &[&'a str]) -> (r: Option<&'a str>)
    requires
        input@.len() < usize::MAX,
        forall|i: int| 0 <= i < choices@.len() ==> (#[trigger] choices@[i])@.len() < usize::MAX,
    ensures
        match r {
            Some(name) => exists|i: int|
                0 <= i < choices@.len() && choices@[i] == name && levenshtein(input@, name@)
                    <= 2 && (forall|j: int|
                    0 <= j < choices@.len() ==> levenshtein(input@, name@) <= levenshtein(
                        input@,
                        choices@[j]@,
                    )) && (forall|j: int|
                    0 <= j < i ==> levenshtein(input@, name@) < levenshtein(
                        input@,
                        choices@[j]@,
                    )),
            None => forall|j: int| 0 <= j < choices@.len() ==> levenshtein(input@, choices@[j]@) > 2,
        },
{
    let mut best: Option<(usize, usize)> = None;
    let mut i: usize = 0;
    while i < choices.len()
        invariant
            i <= choices@.len(),
            input@.len() < usize::MAX,
            forall|q: int| 0 <= q < choices@.len() ==> (#[trigger] choices@[q])@.len() < usize::MAX,
            match best {
                Some((b, distance)) => {
                    &&& b < i
                    &&& distance == levenshtein(input@, choices@[b as int]@)
                    &&& distance <= 2
                    &&& forall|j: int| 0 <= j < i ==> distance <= levenshtein(input@, choices@[j]@)
                        || levenshtein(input@, choices@[j]@) > 2
                    &&& forall|j: int| 0 <= j < b ==> distance < levenshtein(input@, choices@[j]@)
                },
                None => forall|j: int| 0 <= j < i ==> levenshtein(input@, choices@[j]@) > 2,
            },
        decreases choices.len() - i,
    {
        let distance = edit_distance(input, choices[i]);
        if distance <= 2 {
            match best {
                Some((_, current)) => {
                    if distance < current {
                        best = Some((i, distance));
                    }
                },
                None => {
                    best = Some((i, distance));
                },
            }
        }
        i = i + 1;
    }
    match best {
        Some((b, _)) => Some(choices[b]),
        None => None,
    }
}


/// A character allowed in a project name.
pub open spec fn project_name_char(c: char) -> bool {
    is_ascii_alphanumeric(c) || c == '_' || c == '-'
}

/// The character code with ASCII upper-case letters folded to lower case.
pub open spec fn folded(c: char) -> u32 {
    if 'A' <= c && c <= 'Z' {
        (c as u32 + 32) as u32
    } else {
        c as u32
    }
}

/// Equal up to ASCII case.
pub open spec fn same_ignoring_ascii_case(a: Seq<char>, b: Seq<char>) -> bool {
    a.len() == b.len() && forall|i: int| 0 <= i < a.len() ==> folded(a[i]) == folded(b[i])
}

fn fold_char(c: char) -> (r: u32)
    ensures
        r == folded(c),
{
    if 'A' <= c && c <= 'Z' {
        c as u32 + 32
    } else {
        c as u32
    }
}

/// Whether two strings are equal up to ASCII case.
pub fn eq_ignoring_ascii_case(a: &str, b: &str) -> (r: bool)
    ensures
        r == same_ignoring_ascii_case(a@, b@),
{
    let x = chars_of(a);
    let y = chars_of(b);
    if x.len() != y.len() {
        return false;
    }
    let mut i: usize = 0;
    while i < x.len()
        invariant
            x@ == a@,
            y@ == b@,
            x@.len() == y@.len(),
            i <= x@.len(),
            forall|j: int| 0 <= j < i ==> folded(x@[j]) == folded(y@[j]),
        decreases x.len() - i,
    {
        if fold_char(x[i]) != fold_char(y[i]) {
            return false;
        }
        i = i + 1;
    }
    true
}

/// The names that Windows reserves for devices.
pub open spec fn device_names() -> Seq<Seq<char>> {
    seq![
        "CON"@, "PRN"@, "AUX"@, "NUL"@, "COM1"@, "COM2"@, "COM3"@, "COM4"@, "COM5"@, "COM6"@,
        "COM7"@, "COM8"@, "COM9"@, "LPT1"@, "LPT2"@, "LPT3"@, "LPT4"@, "LPT5"@, "LPT6"@, "LPT7"@,
        "LPT8"@, "LPT9"@,
    ]
}

/// A name that is a Windows device name in any ASCII case.
pub open spec fn reserved_device(name: Seq<char>) -> bool {
    exists|i: int| 0 <= i < device_names().len() && same_ignoring_ascii_case(name, device_names()[i])
}

fn is_reserved_device(name: &str) -> (r: bool)
    ensures
        r == reserved_device(name@),
{
    let devices: [&str; 22] = [
        "CON", "PRN", "AUX", "NUL", "COM1", "COM2", "COM3", "COM4", "COM5", "COM6", "COM7",
        "COM8", "COM9", "LPT1", "LPT2", "LPT3", "LPT4", "LPT5", "LPT6", "LPT7", "LPT8", "LPT9",
    ];
    proof {
        assert(devices@.map_values(|d: &str| d@) =~= device_names());
    }
    let mut i: usize = 0;
    while i < 22
        invariant
            i <= 22,
            devices@.map_values(|d: &str| d@) == device_names(),
            forall|j: int| 0 <= j < i ==> !same_ignoring_ascii_case(name@, device_names()[j]),
        decreases 22 - i,
    {
        if eq_ignoring_ascii_case(name, devices[i]) {
            assert(device_names()[i as int] == devices@[i as int]@);
            return true;
        }
        assert(device_names()[i as int] == devices@[i as int]@);
        i = i + 1;
    }
    false
}

/// What `valid_project_name` rejects, if anything.
pub open spec fn project_name_error(name: Seq<char>) -> Option<Seq<char>> {
    if name.len() == 0 || !(forall|i: int| 0 <= i < name.len() ==> project_name_char(name[i])) {
        Some("project name must contain only ASCII letters, digits, underscores or hyphens"@)
    } else if reserved_device(name) {
        Some("project name is a reserved Windows device name"@)
    } else {
        None
    }
}

/// A project name is one or more ASCII letters, digits, `_` or `-`, and not
/// a Windows device name in any case.
pub fn valid_project_name(name: &str) -> (r: Result<(), String>)
    ensures
        match r {
            Ok(()) => project_name_error(name@) is None,
            Err(e) => project_name_error(name@) == Some(e@),
        },
{
    let chars = chars_of(name);
    let mut valid = chars.len() > 0;
    let mut i: usize = 0;
    while i < chars.len()
        invariant
            chars@ == name@,
            i <= chars@.len(),
            valid == (chars@.len() > 0 && forall|j: int| 0 <= j < i ==> project_name_char(chars@[j])),
        decreases chars.len() - i,
    {
        let c = chars[i];
        if !(crate::text::ascii_alphanumeric(c) || c == '_' || c == '-') {
            valid = false;
        }
        i = i + 1;
    }
    if !valid {
        proof {
            reveal_strlit("project name must contain only ASCII letters, digits, underscores or hyphens");
        }
        return Err(owned("project name must contain only ASCII letters, digits, underscores or hyphens"));
    }
    if is_reserved_device(name) {
        proof {
            reveal_strlit("project name is a reserved Windows device name");
        }
        return Err(owned("project name is a reserved Windows device name"));
    }
    Ok(())
}

/// A GitHub owner name: one or more ASCII letters, digits or `-`.
pub open spec fn github_owner(name: Seq<char>) -> bool {
    name.len() > 0 && forall|i: int| 0 <= i < name.len() ==> is_ascii_alphanumeric(name[i]) || name[i] == '-'
}

/// A GitHub repository name: one or more ASCII letters, digits, `-`, `_`
/// or `.`.
pub open spec fn github_repository(name: Seq<char>) -> bool {
    name.len() > 0 && forall|i: int|
        0 <= i < name.len() ==> is_ascii_alphanumeric(name[i]) || name[i] == '-' || name[i] == '_'
            || name[i] == '.'
}

/// Whether `name` is a valid GitHub owner name.
pub fn valid_github_owner(name: &str) -> (r: bool)
    ensures
        r == github_owner(name@),
{
    let chars = chars_of(name);
    if chars.len() == 0 {
        return false;
    }
    let mut i: usize = 0;
    while i < chars.len()
        invariant
            chars@ == name@,
            i <= chars@.len(),
            forall|j: int| 0 <= j < i ==> is_ascii_alphanumeric(chars@[j]) || chars@[j] == '-',
        decreases chars.len() - i,
    {
        if !(crate::text::ascii_alphanumeric(chars[i]) || chars[i] == '-') {
            return false;
        }
        i = i + 1;
    }
    true
}

/// Whether `name` is a valid GitHub repository name.
pub fn valid_github_repository(name: &str) -> (r: bool)
    ensures
        r == github_repository(name@),
{
    let chars = chars_of(name);
    if chars.len() == 0 {
        return false;
    }
    let mut i: usize = 0;
    while i < chars.len()
        invariant
            chars@ == name@,
            i <= chars@.len(),
            forall|j: int|
                0 <= j < i ==> is_ascii_alphanumeric(chars@[j]) || chars@[j] == '-' || chars@[j]
                    == '_' || chars@[j] == '.',
        decreases chars.len() - i,
    {
        let c = chars[i];
        if !(crate::text::ascii_alphanumeric(c) || c == '-' || c == '_' || c == '.') {
            return false;
        }
        i = i + 1;
    }
    true
}

/// The prefix of every package source.
pub open spec fn github_prefix() -> Seq<char> {
    "https://github.com/"@
}

/// The owner and the rest of a package source `https://github.com/owner/rest`:
/// the text after the prefix, split at its first `/`.
pub open spec fn github_path(source: Seq<char>) -> Option<(Seq<char>, Seq<char>)> {
    let p = github_prefix().len();
    if source.len() >= p && source.subrange(0, p as int) == github_prefix() {
        let path = source.subrange(p as int, source.len() as int);
        if exists|k: int| 0 <= k < path.len() && path[k] == '/' {
            let k = choose|k: int|
                0 <= k < path.len() && path[k] == '/' && forall|j: int| 0 <= j < k ==> path[j] != '/';
            Some((path.subrange(0, k), path.subrange(k + 1, path.len() as int)))
        } else {
            None
        }
    } else {
        None
    }
}

/// Splits a package source into the owner and the rest (see `github_path`).
pub fn split_github_path(source: &str) -> (r: Option<(String, String)>)
    ensures
        match r {
            Some((owner, rest)) => github_path(source@) == Some((owner@, rest@)),
            None => github_path(source@) is None,
        },
{
    proof {
        reveal_strlit("https://github.com/");
    }
    if !crate::text::starts_with(source, "https://github.com/") {
        return None;
    }
    let chars = chars_of(source);
    let p: usize = 19;
    let ghost path = source@.subrange(19, source@.len() as int);
    let mut k: usize = p;
    while k < chars.len()
        invariant
            chars@ == source@,
            p <= k <= chars@.len(),
            forall|j: int| p <= j < k ==> chars@[j] != '/',
        decreases chars.len() - k,
    {
        if chars[k] == '/' {
            let mut owner = String::new();
            let mut i: usize = p;
            while i < k
                invariant
                    chars@ == source@,
                    p <= i <= k,
                    k < chars@.len(),
                    owner@ == chars@.subrange(p as int, i as int),
                decreases k - i,
            {
                push_char(&mut owner, chars[i]);
                i = i + 1;
                assert(owner@ =~= chars@.subrange(p as int, i as int));
            }
            let mut rest = String::new();
            let mut i: usize = k + 1;
            while i < chars.len()
                invariant
                    chars@ == source@,
                    k + 1 <= i <= chars@.len(),
                    rest@ == chars@.subrange(k + 1, i as int),
                decreases chars.len() - i,
            {
                push_char(&mut rest, chars[i]);
                i = i + 1;
                assert(rest@ =~= chars@.subrange(k + 1, i as int));
            }
            proof {
                let q = (k - p) as int;
                assert(path[q] == '/');
                let chosen = choose|c: int|
                    0 <= c < path.len() && path[c] == '/' && forall|j: int| 0 <= j < c ==> path[j] != '/';
                assert(0 <= q < path.len() && path[q] == '/' && forall|j: int| 0 <= j < q ==> path[j] != '/');
                assert(chosen == q) by {
                    if chosen < q {
                        assert(path[chosen] == chars@[chosen + 19]);
                    } else if chosen > q {
                    }
                }
                assert(owner@ =~= path.subrange(0, q));
                assert(rest@ =~= path.subrange(q + 1, path.len() as int));
            }
            return Some((owner, rest));
        }
        k = k + 1;
    }
    proof {
        assert forall|q: int| 0 <= q < path.len() implies path[q] != '/' by {
            assert(path[q] == chars@[q + 19]);
        }
    }
    None
}

/// A source is official when its owner is `AdmerPRO` or `AdamantiumORG`,
/// in any ASCII case.
pub open spec fn official_source(source: Seq<char>) -> bool {
    match github_path(source) {
        Some((owner, _)) => same_ignoring_ascii_case(owner, "AdmerPRO"@)
            || same_ignoring_ascii_case(owner, "AdamantiumORG"@),
        None => false,
    }
}

/// Whether a package comes from an official owner (see `official_source`).
pub fn is_official_package_source(source: &str) -> (r: bool)
    ensures
        r == official_source(source@),
{
    match split_github_path(source) {
        Some((owner, _)) => eq_ignoring_ascii_case(owner.as_str(), "AdmerPRO")
            || eq_ignoring_ascii_case(owner.as_str(), "AdamantiumORG"),
        None => false,
    }
}

/// A package that a project requires: its repository name, source URL and
/// version.
#[derive(Debug, PartialEq)]
pub struct Package {
    pub name: String,
    pub source: String,
    pub version: String,
}

/// The warning printed for a package whose source is not official.
pub fn community_package_warning(package: &Package) -> (r: Option<String>)
    ensures
        match r {
            Some(w) => !official_source(package.source@) && w@ == "warning: package '"@
                + package.name@ + "' is a community package and is not controlled by Adamantium"@,
            None => official_source(package.source@),
        },
{
    if is_official_package_source(package.source.as_str()) {
        None
    } else {
        Some(
            concat3(
                "warning: package '",
                package.name.as_str(),
                "' is a community package and is not controlled by Adamantium",
            ),
        )
    }
}


/// A line without its final `\r`, if it has one.
pub open spec fn without_cr(line: Seq<char>) -> Seq<char> {
    if line.len() > 0 && line.last() == '\r' { line.drop_last() } else { line }
}

/// The lines of `text` from position `i` on, given the part `current` of the
/// line in progress and the lines before it (see `text_lines`).
pub open spec fn lines_from(text: Seq<char>, i: int, current: Seq<char>, lines: Seq<Seq<char>>) -> Seq<Seq<char>>
    decreases text.len() - i,
{
    if i < 0 || i >= text.len() {
        if current.len() > 0 { lines.push(current) } else { lines }
    } else if text[i] == '\n' {
        lines_from(text, i + 1, seq![], lines.push(without_cr(current)))
    } else {
        lines_from(text, i + 1, current.push(text[i]), lines)
    }
}

/// The lines of a text as `str::lines` gives them: split at `\n`, each line
/// that a `\n` ends without a final `\r`, and no empty line after a final
/// `\n`.
pub open spec fn text_lines(text: Seq<char>) -> Seq<Seq<char>> {
    lines_from(text, 0, seq![], seq![])
}

/// The character sequences of a list of character vectors.
pub open spec fn char_views(lines: Seq<Vec<char>>) -> Seq<Seq<char>> {
    lines.map_values(|l: Vec<char>| l@)
}

fn strip_cr(current: &mut Vec<char>)
    ensures
        final(current)@ == without_cr(old(current)@),
{
    if current.len() > 0 && current[current.len() - 1] == '\r' {
        current.pop();
    }
}

/// The lines of a text as `str::lines` gives them.
fn lines_of(text: &Vec<char>) -> (r: Vec<Vec<char>>)
    ensures
        char_views(r@) == text_lines(text@),
{
    let mut lines: Vec<Vec<char>> = Vec::new();
    let mut current: Vec<char> = Vec::new();
    let mut i: usize = 0;
    assert(char_views(lines@) =~= Seq::<Seq<char>>::empty());
    while i < text.len()
        invariant
            i <= text@.len(),
            lines_from(text@, i as int, current@, char_views(lines@)) == text_lines(text@),
        decreases text.len() - i,
    {
        if text[i] == '\n' {
            strip_cr(&mut current);
            let ghost before = char_views(lines@);
            lines.push(current);
            assert(char_views(lines@) =~= before.push(lines@.last()@));
            current = Vec::new();
            assert(current@ =~= Seq::<char>::empty());
        } else {
            current.push(text[i]);
        }
        i = i + 1;
    }
    if current.len() > 0 {
        let ghost before = char_views(lines@);
        lines.push(current);
        assert(char_views(lines@) =~= before.push(lines@.last()@));
    }
    lines
}

/// The characters `from..to` of `chars`.
fn slice_chars(chars: &Vec<char>, from: usize, to: usize) -> (r: Vec<char>)
    requires
        from <= to <= chars@.len(),
    ensures
        r@ == chars@.subrange(from as int, to as int),
{
    let mut r: Vec<char> = Vec::new();
    let mut i = from;
    while i < to
        invariant
            from <= i <= to,
            to <= chars@.len(),
            r@ == chars@.subrange(from as int, i as int),
        decreases to - i,
    {
        r.push(chars[i]);
        i = i + 1;
        assert(r@ =~= chars@.subrange(from as int, i as int));
    }
    r
}

/// The characters without leading and trailing Unicode white space.
fn trim_chars(chars: &Vec<char>) -> (r: Vec<char>)
    ensures
        r@ == crate::runtime::trimmed(chars@),
{
    let text = crate::text::string_of(chars);
    let trimmed = crate::runtime::trim(text.as_str());
    chars_of(trimmed.as_str())
}

/// The characters without leading Unicode white space.
fn trim_start_chars(chars: &Vec<char>) -> (r: Vec<char>)
    ensures
        r@ == crate::runtime::trim_start(chars@),
{
    let mut start: usize = 0;
    while start < chars.len() && crate::syntax::white_space(chars[start])
        invariant
            start <= chars@.len(),
            forall|k: int| 0 <= k < start ==> crate::syntax::is_white_space(#[trigger] chars@[k]),
        decreases chars.len() - start,
    {
        start = start + 1;
    }
    proof {
        if start > 0 {
            crate::runtime::lemma_trim_start_skip(chars@, start - 1);
        } else {
            assert(chars@.subrange(0, chars@.len() as int) =~= chars@);
        }
        let rest = chars@.subrange(start as int, chars@.len() as int);
        if rest.len() > 0 {
            assert(rest[0] == chars@[start as int]);
        }
        assert(crate::runtime::trim_start(rest) == rest);
    }
    slice_chars(chars, start, chars.len())
}

/// Whether `s` begins with `prefix`.
pub open spec fn begins(s: Seq<char>, prefix: Seq<char>) -> bool {
    prefix.len() <= s.len() && s.subrange(0, prefix.len() as int) == prefix
}

/// Whether `chars` begins with the characters of `prefix`.
fn begins_with(chars: &Vec<char>, prefix: &str) -> (r: bool)
    ensures
        r == begins(chars@, prefix@),
{
    let text = crate::text::string_of(chars);
    crate::text::starts_with(text.as_str(), prefix)
}

/// Whether the characters spell `word`.
fn spells(chars: &Vec<char>, word: &str) -> (r: bool)
    ensures
        r == (chars@ == word@),
{
    let text = crate::text::string_of(chars);
    str_eq(text.as_str(), word)
}

/// A test-function name: an ASCII letter or `_`, then ASCII letters, digits
/// or `_`.
pub open spec fn test_name(name: Seq<char>) -> bool {
    &&& name.len() > 0
    &&& (is_ascii_alphabetic(name[0]) || name[0] == '_')
    &&& forall|i: int| 1 <= i < name.len() ==> is_ascii_alphanumeric(name[i]) || name[i] == '_'
}

/// Whether the characters form an identifier (see `test_name`).
pub fn is_identifier(name: &Vec<char>) -> (r: bool)
    ensures
        r == test_name(name@),
{
    if name.len() == 0 {
        return false;
    }
    if !(crate::text::ascii_alphabetic(name[0]) || name[0] == '_') {
        return false;
    }
    let mut i: usize = 1;
    while i < name.len()
        invariant
            1 <= i <= name@.len(),
            forall|j: int| 1 <= j < i ==> is_ascii_alphanumeric(name@[j]) || name@[j] == '_',
        decreases name.len() - i,
    {
        if !(crate::text::ascii_alphanumeric(name[i]) || name[i] == '_') {
            return false;
        }
        i = i + 1;
    }
    true
}

/// A test function of the project's `code/tests.ad`.
pub struct TestDefinition {
    pub name: String,
}

/// `path:line: message`.
pub open spec fn located_text(path: Seq<char>, line: nat, message: Seq<char>) -> Seq<char> {
    path + ":"@ + crate::text::nat_digits(line) + ": "@ + message
}

fn located(path: &str, line: usize, message: &str) -> (r: String)
    ensures
        r@ == located_text(path@, line as nat, message@),
{
    let mut text = concat2(path, ":");
    text.append(crate::text::usize_text(line).as_str());
    text.append(": ");
    text.append(message);
    text
}

/// The first position, from `k` on, where `()` starts.
pub open spec fn first_pair(s: Seq<char>, k: int) -> Option<int>
    decreases s.len() - k,
{
    if k < 0 || k + 1 >= s.len() {
        None
    } else if s[k] == '(' && s[k + 1] == ')' {
        Some(k)
    } else {
        first_pair(s, k + 1)
    }
}

/// The line with its first `()` followed by ` result:None`.
pub open spec fn with_result(line: Seq<char>) -> Seq<char> {
    match first_pair(line, 0) {
        Some(p) => line.subrange(0, p) + "() result:None"@ + line.subrange(p + 2, line.len() as int),
        None => line,
    }
}

proof fn lemma_first_pair_bounds(s: Seq<char>, k: int)
    requires
        0 <= k,
    ensures
        first_pair(s, k) matches Some(p) ==> k <= p && p + 1 < s.len(),
    decreases s.len() - k,
{
    if k + 1 < s.len() && !(s[k] == '(' && s[k + 1] == ')') {
        lemma_first_pair_bounds(s, k + 1);
    }
}

/// The line with its first `()` followed by ` result:None`.
fn with_result_none(line: &Vec<char>) -> (r: String)
    ensures
        r@ == with_result(line@),
{
    let mut out = String::new();
    let mut replaced = false;
    let ghost mut at: int = 0;
    let mut i: usize = 0;
    proof {
        reveal_strlit("() result:None");
        lemma_first_pair_bounds(line@, 0);
    }
    while i < line.len()
        invariant
            i <= line@.len(),
            !replaced ==> out@ == line@.subrange(0, i as int) && first_pair(line@, 0) == first_pair(line@, i as int),
            replaced ==> first_pair(line@, 0) == Some(at) && at + 2 <= i
                && out@ == line@.subrange(0, at) + "() result:None"@ + line@.subrange(at + 2, i as int),
        decreases line.len() - i,
    {
        if !replaced && line[i] == '(' && i + 1 < line.len() && line[i + 1] == ')' {
            out.append("() result:None");
            replaced = true;
            proof {
                at = i as int;
                assert(line@.subrange(i + 2, i + 2) =~= Seq::<char>::empty());
                assert(out@ =~= line@.subrange(0, at) + "() result:None"@ + line@.subrange(at + 2, i + 2));
            }
            i = i + 2;
        } else {
            push_char(&mut out, line[i]);
            proof {
                if replaced {
                    assert(out@ =~= line@.subrange(0, at) + "() result:None"@ + line@.subrange(at + 2, i + 1));
                } else {
                    assert(out@ =~= line@.subrange(0, i + 1));
                }
            }
            i = i + 1;
        }
    }
    proof {
        if !replaced {
            assert(first_pair(line@, i as int) is None);
            assert(out@ =~= line@);
        }
    }
    out
}

/// The position of the first `(` from `k` on, or the length.
pub open spec fn paren_index(s: Seq<char>, k: int) -> int
    decreases s.len() - k,
{
    if k < 0 || k >= s.len() {
        s.len() as int
    } else if s[k] == '(' {
        k
    } else {
        paren_index(s, k + 1)
    }
}

/// The names of the tests.
pub open spec fn test_names(tests: Seq<TestDefinition>) -> Seq<Seq<char>> {
    tests.map_values(|t: TestDefinition| t.name@)
}

proof fn lemma_trim_start_len(s: Seq<char>)
    ensures
        crate::runtime::trim_start(s).len() <= s.len(),
    decreases s.len(),
{
    if s.len() > 0 && crate::syntax::is_white_space(s[0]) {
        lemma_trim_start_len(s.drop_first());
    }
}

proof fn lemma_trim_end_len(s: Seq<char>)
    ensures
        crate::runtime::trim_end(s).len() <= s.len(),
    decreases s.len(),
{
    if s.len() > 0 && crate::syntax::is_white_space(s.last()) {
        lemma_trim_end_len(s.drop_last());
    }
}

proof fn lemma_trimmed_len(s: Seq<char>)
    ensures
        crate::runtime::trimmed(s).len() <= s.len(),
{
    lemma_trim_start_len(s);
    lemma_trim_end_len(crate::runtime::trim_start(s));
}

/// Reading the lines of a test file from line `index` on (see
/// `test_source`): whether a `#[test]` waits for its function, the output so
/// far and the tests so far.
pub open spec fn scan_tests(
    path: Seq<char>,
    lines: Seq<Seq<char>>,
    index: int,
    awaiting: bool,
    output: Seq<char>,
    names: Seq<Seq<char>>,
) -> Result<(Seq<char>, Seq<Seq<char>>), Seq<char>>
    decreases lines.len() - index,
{
    if index < 0 || index >= lines.len() {
        if awaiting {
            Err(path + ": #[test] must annotate a function"@)
        } else if names.len() == 0 {
            Err(path + ": no #[test] functions found"@)
        } else {
            Ok((output, names))
        }
    } else {
        let line = lines[index];
        let number = (index + 1) as nat;
        let t = crate::runtime::trimmed(line);
        if t == "#[test]"@ {
            if awaiting {
                Err(located_text(path, number, "duplicate #[test] attribute"@))
            } else {
                scan_tests(path, lines, index + 1, true, output, names)
            }
        } else if awaiting && t.len() > 0 && !begins(t, "//"@) {
            if !begins(t, "fun "@) {
                Err(located_text(path, number, "#[test] must annotate a function"@))
            } else {
                let rest = t.subrange(4, t.len() as int);
                let name = crate::runtime::trimmed(rest.subrange(0, paren_index(rest, 0)));
                if !test_name(name) {
                    Err(located_text(path, number, "invalid test function name"@))
                } else if !begins(crate::runtime::trim_start(rest.subrange(name.len() as int, rest.len() as int)), "()"@) {
                    Err(located_text(path, number, "test functions cannot have parameters"@))
                } else if names.contains(name) {
                    Err(located_text(path, number, "duplicate test '"@ + name + "'"@))
                } else {
                    scan_tests(path, lines, index + 1, false, output + with_result(line) + seq!['\n'], names.push(name))
                }
            }
        } else {
            scan_tests(path, lines, index + 1, awaiting, output + line + seq!['\n'], names)
        }
    }
}

/// Reads the test file: each `#[test]` line marks the next function (after
/// blank and `//` lines) as a test, which must be `fun name()` with a valid
/// and new name. The result is the source without the `#[test]` lines, each
/// test function given the result `result:None`, and the tests in order.
/// `path` prefixes the error messages.
pub fn test_source(path: &str, source: &str) -> (r: Result<(String, Vec<TestDefinition>), String>)
    ensures
        r matches Ok((_, tests)) ==> tests@.len() > 0,
        match r {
            Ok((output, tests)) => scan_tests(path@, text_lines(source@), 0, false, seq![], seq![])
                == Ok::<(Seq<char>, Seq<Seq<char>>), Seq<char>>((output@, test_names(tests@))),
            Err(e) => scan_tests(path@, text_lines(source@), 0, false, seq![], seq![])
                == Err::<(Seq<char>, Seq<Seq<char>>), Seq<char>>(e@),
        },
{
    let chars = chars_of(source);
    let lines = lines_of(&chars);
    let ghost views = char_views(lines@);
    let ghost goal = scan_tests(path@, views, 0, false, seq![], seq![]);
    let mut output = String::new();
    let mut tests: Vec<TestDefinition> = Vec::new();
    let mut awaiting_test = false;
    let mut index: usize = 0;
    assert(test_names(tests@) =~= Seq::<Seq<char>>::empty());
    proof {
        reveal_strlit("#[test]");
        reveal_strlit("//");
        reveal_strlit("fun ");
        reveal_strlit("()");
    }
    while index < lines.len()
        invariant
            views == char_views(lines@),
            index <= lines@.len(),
            scan_tests(path@, views, index as int, awaiting_test, output@, test_names(tests@)) == goal,
        decreases lines.len() - index,
    {
        let line = &lines[index];
        assert(views[index as int] == line@);
        let number = index + 1;
        let trimmed = trim_chars(line);
        if spells(&trimmed, "#[test]") {
            if awaiting_test {
                return Err(located(path, number, "duplicate #[test] attribute"));
            }
            awaiting_test = true;
            index = index + 1;
            continue;
        }
        if awaiting_test && trimmed.len() > 0 && !begins_with(&trimmed, "//") {
            if !begins_with(&trimmed, "fun ") {
                return Err(located(path, number, "#[test] must annotate a function"));
            }
            let rest = slice_chars(&trimmed, 4, trimmed.len());
            let mut open: usize = 0;
            while open < rest.len() && rest[open] != '('
                invariant
                    open <= rest@.len(),
                    paren_index(rest@, 0) == paren_index(rest@, open as int),
                decreases rest.len() - open,
            {
                open = open + 1;
            }
            let before = slice_chars(&rest, 0, open);
            let name = trim_chars(&before);
            if !is_identifier(&name) {
                return Err(located(path, number, "invalid test function name"));
            }
            proof {
                lemma_trimmed_len(before@);
            }
            let after_name = slice_chars(&rest, name.len(), rest.len());
            if !begins_with(&trim_start_chars(&after_name), "()") {
                return Err(located(path, number, "test functions cannot have parameters"));
            }
            let name = crate::text::string_of(&name);
            let mut t: usize = 0;
            while t < tests.len()
                invariant
                    t <= tests@.len(),
                    forall|j: int| 0 <= j < t ==> test_names(tests@)[j] != name@,
                decreases tests.len() - t,
            {
                if str_eq(tests[t].name.as_str(), name.as_str()) {
                    assert(test_names(tests@)[t as int] == name@);
                    let message = concat3("duplicate test '", name.as_str(), "'");
                    return Err(located(path, number, message.as_str()));
                }
                t = t + 1;
            }
            let ghost known = test_names(tests@);
            assert(!known.contains(name@));
            tests.push(TestDefinition { name });
            assert(test_names(tests@) =~= known.push(tests@.last().name@));
            awaiting_test = false;
            let output_line = with_result_none(line);
            let ghost previous = output@;
            output.append(output_line.as_str());
            push_char(&mut output, '\n');
            assert(output@ =~= previous + with_result(line@) + seq!['\n']);
            index = index + 1;
            continue;
        }
        let output_line = crate::text::string_of(line);
        let ghost previous = output@;
        output.append(output_line.as_str());
        push_char(&mut output, '\n');
        assert(output@ =~= previous + line@ + seq!['\n']);
        index = index + 1;
    }
    if awaiting_test {
        return Err(concat2(path, ": #[test] must annotate a function"));
    }
    if tests.len() == 0 {
        return Err(concat2(path, ": no #[test] functions found"));
    }
    Ok((output, tests))
}

/// The main module's source with the test functions and an entry function
/// that calls the test `name` appended.
pub open spec fn test_entry_source(main: Seq<char>, tests: Seq<char>, name: Seq<char>) -> Seq<char> {
    main + "\n"@ + tests + "\nfun __adamantium_test_entry() result:None { "@ + name + "(); }\n"@
}

/// Appends the test functions and the entry of test `name` to the main
/// module (the one with the empty path) of `sources`.
pub fn add_test_entry(sources: &mut Vec<(String, String)>, tests: &str, name: &str) -> (r: Result<
    (),
    String,
>)
    ensures
        r is Ok <==> exists|m: int|
            0 <= m < old(sources)@.len() && (#[trigger] old(sources)@[m]).0@.len() == 0,
        r matches Err(e) ==> e@ == "main module is not loaded"@ && final(sources)@ == old(sources)@,
        r is Ok ==> exists|m: int|
            0 <= m < old(sources)@.len() && old(sources)@[m].0@.len() == 0 && (forall|j: int|
                0 <= j < m ==> (#[trigger] old(sources)@[j]).0@.len() != 0) && final(sources)@
                == old(sources)@.update(
                m,
                (
                    old(sources)@[m].0,
                    final(sources)@[m].1,
                ),
            ) && final(sources)@[m].1@ == test_entry_source(old(sources)@[m].1@, tests@, name@),
{
    let mut m: usize = 0;
    while m < sources.len()
        invariant
            sources@ == old(sources)@,
            m <= sources@.len(),
            forall|j: int| 0 <= j < m ==> (#[trigger] old(sources)@[j]).0@.len() != 0,
        decreases sources.len() - m,
    {
        if sources[m].0.as_str().is_empty() {
            let (module, mut text) = sources.remove(m);
            text.append("\n");
            text.append(tests);
            text.append("\nfun __adamantium_test_entry() result:None { ");
            text.append(name);
            text.append("(); }\n");
            sources.insert(m, (module, text));
            proof {
                assert(sources@ =~= old(sources)@.update(m as int, (old(sources)@[m as int].0, sources@[m as int].1)));
            }
            return Ok(());
        }
        m = m + 1;
    }
    Err(owned("main module is not loaded"))
}

/// The tests that `filter` selects (all without one); none is an error.
pub fn select_tests(tests: Vec<TestDefinition>, filter: Option<&str>) -> (r: Result<
    Vec<TestDefinition>,
    String,
>)
    ensures
        r matches Ok(selected) ==> selected@.len() > 0 && forall|i: int|
            0 <= i < selected@.len() ==> (filter matches Some(f) ==> (#[trigger] selected@[i]).name@
                == f@),
        r matches Err(e) ==> e@ == match filter {
            Some(f) => "test '"@ + f@ + "' was not found"@,
            None => "no tests found"@,
        },
{
    let mut selected: Vec<TestDefinition> = Vec::new();
    let mut tests = tests;
    let count = tests.len();
    let mut i: usize = 0;
    while i < count
        invariant
            tests@.len() == count - i,
            forall|j: int|
                0 <= j < selected@.len() ==> (filter matches Some(f) ==> (#[trigger] selected@[j]).name@
                    == f@),
        decreases count - i,
    {
        let test = tests.remove(0);
        let keep = match filter {
            Some(f) => str_eq(test.name.as_str(), f),
            None => true,
        };
        if keep {
            selected.push(test);
        }
        i = i + 1;
    }
    if selected.len() == 0 {
        return Err(
            match filter {
                None => owned("no tests found"),
                Some(name) => concat3("test '", name, "' was not found"),
            },
        );
    }
    Ok(selected)
}

/// `running N test` or `running N tests`.
pub fn running_line(count: usize) -> (r: String)
    ensures
        r@ == "running "@ + crate::text::nat_digits(count as nat) + " test"@ + (if count == 1 {
            ""@
        } else {
            "s"@
        }),
{
    let mut line = concat2("running ", crate::text::usize_text(count).as_str());
    line.append(" test");
    if count != 1 {
        line.append("s");
    } else {
        proof {
            reveal_strlit("");
            assert(line@ + ""@ =~= line@);
        }
    }
    line
}

/// The summary after the tests ran.
pub fn result_line(passed: usize, failed: usize) -> (r: String)
    ensures
        r@ == "\ntest result: "@ + (if failed == 0 {
            "ok"@
        } else {
            "FAILED"@
        }) + ". "@ + crate::text::nat_digits(passed as nat) + " passed; "@ + crate::text::nat_digits(
            failed as nat,
        ) + " failed"@,
{
    let mut line = concat2("\ntest result: ", if failed == 0 {
        "ok"
    } else {
        "FAILED"
    });
    line.append(". ");
    line.append(crate::text::usize_text(passed).as_str());
    line.append(" passed; ");
    line.append(crate::text::usize_text(failed).as_str());
    line.append(" failed");
    line
}

/// `test NAME ... ok` or `test NAME ... FAILED`.
pub fn test_status_line(name: &str, passed: bool) -> (r: String)
    ensures
        r@ == "test "@ + name@ + (if passed {
            " ... ok"@
        } else {
            " ... FAILED"@
        }),
{
    concat3("test ", name, if passed {
        " ... ok"
    } else {
        " ... FAILED"
    })
}


/// A command of the command-line tool, with its project directory.
pub enum Action {
    Help,
    Version,
    Check(String),
    Install(String),
    Clean(String),
    TestList(String),
    TestRun(String, Option<String>, bool),
    Build(String),
    Run(String, Vec<String>),
    New(String),
}

/// The project directory argument at `index`, or else the current
/// directory.
fn directory_at(args: &Vec<String>, index: usize, current: &Result<String, String>) -> (r: Result<
    String,
    String,
>)
    ensures
        index < args@.len() ==> r == Ok::<String, String>(args@[index as int]),
        index >= args@.len() ==> r == *current,
{
    if index < args.len() {
        Ok(args[index].clone())
    } else {
        match current {
            Ok(directory) => Ok(directory.clone()),
            Err(error) => Err(error.clone()),
        }
    }
}

fn too_many_arguments() -> (r: String)
    ensures
        r@ == "too many arguments; use --help"@,
{
    owned("too many arguments; use --help")
}

/// Whether every argument is short enough to measure edit distances.
pub open spec fn measurable(args: Seq<String>) -> bool {
    forall|i: int| 0 <= i < args.len() ==> (#[trigger] args[i])@.len() < usize::MAX
}

/// A command as plain values (see `Action`).
pub enum ActionModel {
    Help,
    Version,
    Check(Seq<char>),
    Install(Seq<char>),
    Clean(Seq<char>),
    TestList(Seq<char>),
    TestRun(Seq<char>, Option<Seq<char>>, bool),
    Build(Seq<char>),
    Run(Seq<char>, Seq<Seq<char>>),
    New(Seq<char>),
}

/// The plain values of a command.
pub open spec fn action_model(a: Action) -> ActionModel {
    match a {
        Action::Help => ActionModel::Help,
        Action::Version => ActionModel::Version,
        Action::Check(root) => ActionModel::Check(root@),
        Action::Install(root) => ActionModel::Install(root@),
        Action::Clean(root) => ActionModel::Clean(root@),
        Action::TestList(root) => ActionModel::TestList(root@),
        Action::TestRun(root, filter, verbose) => ActionModel::TestRun(
            root@,
            match filter {
                Some(f) => Some(f@),
                None => None,
            },
            verbose,
        ),
        Action::Build(root) => ActionModel::Build(root@),
        Action::Run(root, arguments) => ActionModel::Run(root@, crate::text::string_views(arguments@)),
        Action::New(root) => ActionModel::New(root@),
    }
}

/// The choice nearest to `input` (see `closest_index`).
pub open spec fn closest_choice(input: Seq<char>, choices: Seq<Seq<char>>) -> Option<Seq<char>> {
    match closest_index(input, choices) {
        Some(i) => Some(choices[i]),
        None => None,
    }
}

/// The positions from `k` on of the `test run` arguments other than
/// `--verbose`.
pub open spec fn kept_arguments(args: Seq<Seq<char>>, k: int) -> Seq<int>
    decreases args.len() - k,
{
    if k < 0 || k >= args.len() {
        seq![]
    } else if args[k] == "--verbose"@ {
        kept_arguments(args, k + 1)
    } else {
        seq![k] + kept_arguments(args, k + 1)
    }
}

/// The message of a command that takes fewer arguments.
pub open spec fn too_many() -> Seq<char> {
    "too many arguments; use --help"@
}

/// The project directory: the argument at `index`, or the current directory.
pub open spec fn directory_choice(args: Seq<Seq<char>>, index: int, current: Result<Seq<char>, Seq<char>>) -> Result<Seq<char>, Seq<char>> {
    if index < args.len() { Ok(args[index]) } else { current }
}

/// `build`, `check`, `install`, `clean` or `clear` with an optional
/// project directory.
pub open spec fn project_branch(args: Seq<Seq<char>>, current: Result<Seq<char>, Seq<char>>) -> Result<ActionModel, Seq<char>> {
    let first = args[0];
    match directory_choice(args, 1, current) {
        Err(e) => Err(e),
        Ok(root) => if args.len() > 2 {
            Err(too_many())
        } else if first == "build"@ {
            Ok(ActionModel::Build(root))
        } else if first == "check"@ {
            Ok(ActionModel::Check(root))
        } else if first == "install"@ {
            Ok(ActionModel::Install(root))
        } else {
            Ok(ActionModel::Clean(root))
        },
    }
}

/// `run`, with a project directory unless the next argument is an option,
/// and the arguments for the program.
pub open spec fn run_branch(args: Seq<Seq<char>>, current: Result<Seq<char>, Seq<char>>) -> Result<ActionModel, Seq<char>> {
    let n = args.len();
    if n > 1 && !begins(args[1], "-"@) {
        Ok(ActionModel::Run(args[1], args.subrange(2, n as int)))
    } else {
        match current {
            Err(e) => Err(e),
            Ok(c) => Ok(ActionModel::Run(c, args.subrange(1, n as int))),
        }
    }
}

/// `test run` with an optional project directory, test name and
/// `--verbose`.
pub open spec fn test_run_branch(args: Seq<Seq<char>>, current: Result<Seq<char>, Seq<char>>, is_project: Seq<bool>) -> Result<ActionModel, Seq<char>> {
    let verbose = args.subrange(2, args.len() as int).contains("--verbose"@);
    let values = kept_arguments(args, 2);
    if values.len() == 0 {
        match current {
            Err(e) => Err(e),
            Ok(c) => Ok(ActionModel::TestRun(c, None, verbose)),
        }
    } else if values.len() == 1 {
        let one = values[0];
        if one < is_project.len() && is_project[one] {
            Ok(ActionModel::TestRun(args[one], None, verbose))
        } else {
            match current {
                Err(e) => Err(e),
                Ok(c) => Ok(ActionModel::TestRun(c, Some(args[one]), verbose)),
            }
        }
    } else if values.len() == 2 {
        Ok(ActionModel::TestRun(args[values[0]], Some(args[values[1]]), verbose))
    } else {
        Err("too many arguments for 'adamantium test run'; use --help"@)
    }
}

/// `test list` or `test run`.
pub open spec fn test_branch(args: Seq<Seq<char>>, current: Result<Seq<char>, Seq<char>>, is_project: Seq<bool>) -> Result<ActionModel, Seq<char>> {
    if args.len() < 2 {
        Err("adamantium test requires 'list' or 'run'; use --help"@)
    } else {
        let command = args[1];
        if command == "list"@ {
            match directory_choice(args, 2, current) {
                Err(e) => Err(e),
                Ok(root) => if args.len() > 3 {
                    Err("too many arguments for 'adamantium test list'; use --help"@)
                } else {
                    Ok(ActionModel::TestList(root))
                },
            }
        } else if command == "run"@ {
            test_run_branch(args, current, is_project)
        } else {
            Err("unknown test command '"@ + command + "'."@ + match closest_choice(command, seq!["list"@, "run"@]) {
                Some(name) => " Did you mean '"@ + name + "'?"@,
                None => ""@,
            } + " use --help."@)
        }
    }
}

/// The commands of the tool, for suggestions.
pub open spec fn command_names() -> Seq<Seq<char>> {
    seq!["build"@, "check"@, "clean"@, "clear"@, "install"@, "new"@, "run"@, "test"@]
}

/// Anything else: an unknown option, a misspelled command, or a project
/// directory to build.
pub open spec fn other_branch(args: Seq<Seq<char>>, first_exists: bool) -> Result<ActionModel, Seq<char>> {
    let first = args[0];
    if begins(first, "-"@) {
        Err("unknown option '"@ + first + "'; use --help"@)
    } else if !first_exists && closest_choice(first, command_names()) is Some {
        Err("unknown command '"@ + first + "'. Did you mean '"@ + closest_choice(first, command_names()).unwrap() + "'? use --help."@)
    } else if args.len() > 1 {
        Err(too_many())
    } else {
        Ok(ActionModel::Build(first))
    }
}

/// The command that a command line asks for, or the message of what is
/// wrong with it.
pub open spec fn chosen_action(
    args: Seq<Seq<char>>,
    current: Result<Seq<char>, Seq<char>>,
    first_exists: bool,
    is_project: Seq<bool>,
) -> Result<ActionModel, Seq<char>> {
    let n = args.len();
    if n == 0 {
        Ok(ActionModel::Help)
    } else {
        let first = args[0];
        if first == "--help"@ || first == "-h"@ {
            if n > 1 { Err(too_many()) } else { Ok(ActionModel::Help) }
        } else if first == "--version"@ || first == "-V"@ {
            if n > 1 { Err(too_many()) } else { Ok(ActionModel::Version) }
        } else if first == "new"@ {
            if n < 2 {
                Err("adamantium new requires a project name or path; use --help"@)
            } else if n > 2 {
                Err(too_many())
            } else {
                Ok(ActionModel::New(args[1]))
            }
        } else if first == "build"@ || first == "check"@ || first == "install"@ || first == "clean"@ || first == "clear"@ {
            project_branch(args, current)
        } else if first == "run"@ {
            run_branch(args, current)
        } else if first == "test"@ {
            test_branch(args, current, is_project)
        } else {
            other_branch(args, first_exists)
        }
    }
}

/// A result with its error taken as plain values.
pub open spec fn model_of(r: Result<Action, String>) -> Result<ActionModel, Seq<char>> {
    match r {
        Ok(a) => Ok(action_model(a)),
        Err(e) => Err(e@),
    }
}

/// The current directory as plain values.
pub open spec fn directory_model(current: Result<String, String>) -> Result<Seq<char>, Seq<char>> {
    match current {
        Ok(c) => Ok(c@),
        Err(e) => Err(e@),
    }
}

proof fn lemma_closest_index(input: Seq<char>, choices: Seq<Seq<char>>, i: int)
    requires
        0 <= i < choices.len(),
        levenshtein(input, choices[i]) <= 2,
        forall|j: int| 0 <= j < choices.len() ==> levenshtein(input, choices[i]) <= levenshtein(input, choices[j]),
        forall|j: int| 0 <= j < i ==> levenshtein(input, choices[i]) < levenshtein(input, choices[j]),
    ensures
        closest_index(input, choices) == Some(i),
{
    let k = choose|k: int|
        0 <= k < choices.len() && levenshtein(input, choices[k]) <= 2 && (forall|j: int|
            0 <= j < choices.len() ==> levenshtein(input, choices[k]) <= levenshtein(input, choices[j]))
            && (forall|j: int| 0 <= j < k ==> levenshtein(input, choices[k]) < levenshtein(input, choices[j]));
    if k < i {
        assert(levenshtein(input, choices[i]) < levenshtein(input, choices[k]));
    } else if i < k {
        assert(levenshtein(input, choices[k]) < levenshtein(input, choices[i]));
    }
}

/// `closest_name` on string slices, as plain values.
fn nearest(input: &str, choices: &[&str]) -> (r: Option<String>)
    requires
        input@.len() < usize::MAX,
        forall|i: int| 0 <= i < choices@.len() ==> (#[trigger] choices@[i])@.len() < usize::MAX,
    ensures
        match r {
            Some(name) => closest_choice(input@, choices@.map_values(|c: &str| c@)) == Some(name@),
            None => closest_choice(input@, choices@.map_values(|c: &str| c@)) is None,
        },
{
    let ghost views = choices@.map_values(|c: &str| c@);
    match closest_name(input, choices) {
        Some(name) => {
            proof {
                let i = choose|i: int|
                    0 <= i < choices@.len() && choices@[i] == name && levenshtein(input@, name@) <= 2 && (forall|j: int|
                        0 <= j < choices@.len() ==> levenshtein(input@, name@) <= levenshtein(input@, choices@[j]@))
                        && (forall|j: int| 0 <= j < i ==> levenshtein(input@, name@) < levenshtein(input@, choices@[j]@));
                assert(views[i] == name@);
                assert forall|j: int| 0 <= j < views.len() implies levenshtein(input@, views[i]) <= levenshtein(input@, #[trigger] views[j]) by {
                    assert(views[j] == choices@[j]@);
                }
                assert forall|j: int| 0 <= j < i implies levenshtein(input@, views[i]) < levenshtein(input@, #[trigger] views[j]) by {
                    assert(views[j] == choices@[j]@);
                }
                lemma_closest_index(input@, views, i);
            }
            Some(owned(name))
        },
        None => {
            proof {
                assert forall|i: int| 0 <= i < views.len() implies !(levenshtein(input@, #[trigger] views[i]) <= 2) by {
                    assert(views[i] == choices@[i]@);
                }
            }
            None
        },
    }
}

fn project_action(args: &Vec<String>, current: &Result<String, String>) -> (r: Result<Action, String>)
    requires
        args@.len() > 0,
    ensures
        model_of(r) == project_branch(crate::text::string_views(args@), directory_model(*current)),
{
    proof {
        reveal_strlit("build");
        reveal_strlit("check");
        reveal_strlit("install");
    }
    let first = args[0].as_str();
    let root = directory_at(args, 1, current)?;
    if args.len() > 2 {
        return Err(too_many_arguments());
    }
    Ok(
        if str_eq(first, "build") {
            Action::Build(root)
        } else if str_eq(first, "check") {
            Action::Check(root)
        } else if str_eq(first, "install") {
            Action::Install(root)
        } else {
            Action::Clean(root)
        },
    )
}

fn run_action(args: &Vec<String>, current: &Result<String, String>) -> (r: Result<Action, String>)
    requires
        args@.len() > 0,
    ensures
        model_of(r) == run_branch(crate::text::string_views(args@), directory_model(*current)),
{
    let ghost views = crate::text::string_views(args@);
    let n = args.len();
    let mut arguments: Vec<String> = Vec::new();
    proof {
        reveal_strlit("-");
    }
    let explicit = n > 1 && !crate::text::starts_with(args[1].as_str(), "-");
    let root = if explicit {
        args[1].clone()
    } else {
        directory_at(args, n, current)?
    };
    let start: usize = if explicit { 2 } else { 1 };
    let mut k: usize = start;
    assert(crate::text::string_views(arguments@) =~= views.subrange(start as int, start as int));
    while k < n
        invariant
            views == crate::text::string_views(args@),
            n == args@.len(),
            start <= k <= n,
            crate::text::string_views(arguments@) == views.subrange(start as int, k as int),
        decreases n - k,
    {
        let ghost before = crate::text::string_views(arguments@);
        arguments.push(args[k].clone());
        assert(crate::text::string_views(arguments@) =~= views.subrange(start as int, k + 1));
        k = k + 1;
    }
    Ok(Action::Run(root, arguments))
}

fn test_run_action(args: &Vec<String>, current: &Result<String, String>, is_project: &Vec<bool>) -> (r: Result<Action, String>)
    requires
        args@.len() >= 2,
    ensures
        model_of(r) == test_run_branch(crate::text::string_views(args@), directory_model(*current), is_project@),
{
    let ghost views = crate::text::string_views(args@);
    let n = args.len();
    let mut verbose = false;
    let mut values: Vec<usize> = Vec::new();
    let mut k: usize = 2;
    proof {
        reveal_strlit("--verbose");
    }
    while k < n
        invariant
            views == crate::text::string_views(args@),
            n == args@.len(),
            2 <= k <= n,
            verbose == views.subrange(2, k as int).contains("--verbose"@),
            values@.map_values(|v: usize| v as int) + kept_arguments(views, k as int) == kept_arguments(views, 2),
            forall|v: int| 0 <= v < values@.len() ==> #[trigger] values@[v] < n,
        decreases n - k,
    {
        let ghost before = values@;
        proof {
            let next = views.subrange(2, k + 1);
            assert(next =~= views.subrange(2, k as int).push(views[k as int]));
            if views.subrange(2, k as int).contains("--verbose"@) {
                let q = choose|q: int| 0 <= q < views.subrange(2, k as int).len() && views.subrange(2, k as int)[q] == "--verbose"@;
                assert(next[q] == "--verbose"@);
            }
            if next.contains("--verbose"@) && views[k as int] != "--verbose"@ {
                let q = choose|q: int| 0 <= q < next.len() && next[q] == "--verbose"@;
                assert(views.subrange(2, k as int)[q] == "--verbose"@);
            }
            assert(next[next.len() - 1] == views[k as int]);
        }
        if str_eq(args[k].as_str(), "--verbose") {
            verbose = true;
        } else {
            values.push(k);
            assert(values@.map_values(|v: usize| v as int) =~= before.map_values(|v: usize| v as int).push(k as int));
            assert(before.map_values(|v: usize| v as int).push(k as int) + kept_arguments(views, k + 1)
                =~= before.map_values(|v: usize| v as int) + (seq![k as int] + kept_arguments(views, k + 1)));
        }
        k = k + 1;
    }
    let ghost kept = kept_arguments(views, 2);
    assert(kept_arguments(views, n as int) =~= Seq::<int>::empty());
    assert(values@.map_values(|v: usize| v as int) =~= kept);
    if values.len() == 0 {
        let root = directory_at(args, n, current)?;
        return Ok(Action::TestRun(root, None, verbose));
    }
    if values.len() == 1 {
        let one = values[0];
        assert(kept[0] == one as int);
        let project = one < is_project.len() && is_project[one];
        if project {
            return Ok(Action::TestRun(args[one].clone(), None, verbose));
        }
        let root = directory_at(args, n, current)?;
        return Ok(Action::TestRun(root, Some(args[one].clone()), verbose));
    }
    if values.len() == 2 {
        assert(kept[0] == values@[0] as int);
        assert(kept[1] == values@[1] as int);
        return Ok(Action::TestRun(args[values[0]].clone(), Some(args[values[1]].clone()), verbose));
    }
    Err(owned("too many arguments for 'adamantium test run'; use --help"))
}

fn test_action(args: &Vec<String>, current: &Result<String, String>, is_project: &Vec<bool>) -> (r: Result<Action, String>)
    requires
        measurable(args@),
    ensures
        model_of(r) == test_branch(crate::text::string_views(args@), directory_model(*current), is_project@),
{
    let n = args.len();
    if n < 2 {
        return Err(owned("adamantium test requires 'list' or 'run'; use --help"));
    }
    let command = args[1].as_str();
    proof {
        reveal_strlit("list");
        reveal_strlit("run");
    }
    if str_eq(command, "list") {
        let root = directory_at(args, 2, current)?;
        if n > 3 {
            return Err(owned("too many arguments for 'adamantium test list'; use --help"));
        }
        return Ok(Action::TestList(root));
    }
    if str_eq(command, "run") {
        return test_run_action(args, current, is_project);
    }
    let choices: [&str; 2] = ["list", "run"];
    proof {
        reveal_strlit("");
    }
    assert(choices@.map_values(|c: &str| c@) =~= seq!["list"@, "run"@]);
    let help = match nearest(command, &choices) {
        Some(name) => concat3(" Did you mean '", name.as_str(), "'?"),
        None => String::new(),
    };
    let mut message = concat3("unknown test command '", command, "'.");
    message.append(help.as_str());
    message.append(" use --help.");
    Err(message)
}

fn other_action(args: &Vec<String>, first_exists: bool) -> (r: Result<Action, String>)
    requires
        args@.len() > 0,
        measurable(args@),
    ensures
        model_of(r) == other_branch(crate::text::string_views(args@), first_exists),
{
    let first = args[0].as_str();
    proof {
        reveal_strlit("-");
    }
    if crate::text::starts_with(first, "-") {
        return Err(concat3("unknown option '", first, "'; use --help"));
    }
    if !first_exists {
        let commands: [&str; 8] = [
            "build", "check", "clean", "clear", "install", "new", "run", "test",
        ];
        proof {
            reveal_strlit("build");
            reveal_strlit("check");
            reveal_strlit("clean");
            reveal_strlit("clear");
            reveal_strlit("install");
            reveal_strlit("new");
            reveal_strlit("run");
            reveal_strlit("test");
        }
        assert(commands@.map_values(|c: &str| c@) =~= command_names());
        if let Some(command) = nearest(first, &commands) {
            let mut message = concat3("unknown command '", first, "'. Did you mean '");
            message.append(command.as_str());
            message.append("'? use --help.");
            return Err(message);
        }
    }
    if args.len() > 1 {
        return Err(too_many_arguments());
    }
    Ok(Action::Build(args[0].clone()))
}

/// Reads the command line (the arguments after the program name). The
/// current directory stands in for a missing project directory;
/// `first_exists` tells whether the first argument names an existing path,
/// and `is_project[i]` whether argument `i` is a directory with a
/// `project.toml`.
#[verifier::rlimit(40)]
pub fn action(
    args: &Vec<String>,
    current: &Result<String, String>,
    first_exists: bool,
    is_project: &Vec<bool>,
) -> (r: Result<Action, String>)
    requires
        measurable(args@),
    ensures
        model_of(r) == chosen_action(crate::text::string_views(args@), directory_model(*current), first_exists, is_project@),
{
    proof {
        reveal_strlit("--help");
        reveal_strlit("-h");
        reveal_strlit("--version");
        reveal_strlit("-V");
        reveal_strlit("new");
        reveal_strlit("build");
        reveal_strlit("check");
        reveal_strlit("install");
        reveal_strlit("clean");
        reveal_strlit("clear");
        reveal_strlit("run");
        reveal_strlit("test");
    }
    if args.len() == 0 {
        return Ok(Action::Help);
    }
    let first = args[0].as_str();
    let n = args.len();
    if str_eq(first, "--help") || str_eq(first, "-h") {
        if n > 1 {
            return Err(too_many_arguments());
        }
        return Ok(Action::Help);
    }
    if str_eq(first, "--version") || str_eq(first, "-V") {
        if n > 1 {
            return Err(too_many_arguments());
        }
        return Ok(Action::Version);
    }
    if str_eq(first, "new") {
        if n < 2 {
            return Err(owned("adamantium new requires a project name or path; use --help"));
        }
        if n > 2 {
            return Err(too_many_arguments());
        }
        return Ok(Action::New(args[1].clone()));
    }
    if str_eq(first, "build") || str_eq(first, "check") || str_eq(first, "install") || str_eq(first, "clean")
        || str_eq(first, "clear") {
        return project_action(args, current);
    }
    if str_eq(first, "run") {
        return run_action(args, current);
    }
    if str_eq(first, "test") {
        return test_action(args, current, is_project);
    }
    other_action(args, first_exists)
}

/// The `project.toml` of a new project.
pub fn project_manifest(name: &str) -> (r: String)
    ensures
        r@ == "name = \""@ + name@ + "\"\nversion = \"0.1.0\"\ndescription = \"\"\nauthors = []\n"@,
{
    concat3("name = \"", name, "\"\nversion = \"0.1.0\"\ndescription = \"\"\nauthors = []\n")
}

/// The files of a new project named `name`, as paths relative to the project
/// directory with their contents: the manifest, the package requirements, the
/// main module and the ignore list of git.
pub open spec fn new_project_files(name: Seq<char>) -> Seq<(Seq<char>, Seq<char>)> {
    seq![
        ("project.toml"@, "name = \""@ + name + "\"\nversion = \"0.1.0\"\ndescription = \"\"\nauthors = []\n"@),
        ("requirement.toml"@, "[packages]\n"@),
        ("code/main.ad"@, "fun main() {\n    print.newline(\"Hello, Adamantium!\");\n}\n"@),
        (".gitignore"@, "/target/\n/packages/\n"@),
    ]
}

/// The files that creating a project named `name` writes, in order.
pub fn project_files(name: &str) -> (r: Vec<(String, String)>)
    ensures
        crate::text::pair_views(r@) == new_project_files(name@),
{
    let mut r: Vec<(String, String)> = Vec::new();
    r.push((owned("project.toml"), project_manifest(name)));
    r.push((owned("requirement.toml"), owned("[packages]\n")));
    r.push((owned("code/main.ad"), owned("fun main() {\n    print.newline(\"Hello, Adamantium!\");\n}\n")));
    r.push((owned(".gitignore"), owned("/target/\n/packages/\n")));
    assert(crate::text::pair_views(r@) =~= new_project_files(name@));
    r
}

/// The 8-byte header of a WebAssembly binary: `\0asm` and version 1.
pub open spec fn wasm_header() -> Seq<u8> {
    seq![0u8, 0x61u8, 0x73u8, 0x6du8, 1u8, 0u8, 0u8, 0u8]
}

/// Whether the bytes begin with the WebAssembly header.
pub fn is_wasm(bytes: &[u8]) -> (r: bool)
    ensures
        r == (bytes@.len() >= 8 && bytes@.subrange(0, 8) == wasm_header()),
{
    if bytes.len() < 8 {
        return false;
    }
    let header: [u8; 8] = [0, 0x61, 0x73, 0x6d, 1, 0, 0, 0];
    let mut i: usize = 0;
    while i < 8
        invariant
            i <= 8,
            bytes@.len() >= 8,
            header@ == wasm_header(),
            forall|j: int| 0 <= j < i ==> bytes@[j] == wasm_header()[j],
        decreases 8 - i,
    {
        if bytes[i] != header[i] {
            assert(bytes@.subrange(0, 8)[i as int] != wasm_header()[i as int]);
            return false;
        }
        i = i + 1;
    }
    assert(bytes@.subrange(0, 8) =~= wasm_header());
    true
}

/// The text with every `.` written `_`.
pub open spec fn dots_to_underscores(text: Seq<char>) -> Seq<char> {
    text.map_values(|c: char| if c == '.' { '_' } else { c })
}

/// Where `install` downloads a package release from:
/// `SOURCE/releases/download/adamantium_packet_MAJOR_MINOR_PATCH/adamantium_packet.wasm`.
pub fn package_download_url(package: &Package) -> (r: String)
    ensures
        r@ == package.source@ + "/releases/download/adamantium_packet_"@ + dots_to_underscores(
            package.version@,
        ) + "/adamantium_packet.wasm"@,
{
    let mut url = concat2(package.source.as_str(), "/releases/download/adamantium_packet_");
    let version = chars_of(package.version.as_str());
    let ghost start = url@;
    let mut i: usize = 0;
    while i < version.len()
        invariant
            version@ == package.version@,
            i <= version@.len(),
            url@ == start + dots_to_underscores(version@.subrange(0, i as int)),
        decreases version.len() - i,
    {
        push_char(&mut url, if version[i] == '.' {
            '_'
        } else {
            version[i]
        });
        proof {
            assert(dots_to_underscores(version@.subrange(0, i + 1)) =~= dots_to_underscores(
                version@.subrange(0, i as int),
            ).push(if version@[i as int] == '.' {
                '_'
            } else {
                version@[i as int]
            }));
        }
        i = i + 1;
    }
    assert(version@.subrange(0, version@.len() as int) =~= version@);
    url.append("/adamantium_packet.wasm");
    url
}

/// `Installed N package` or `Installed N packages`.
pub fn installed_line(count: usize) -> (r: String)
    ensures
        r@ == "Installed "@ + crate::text::nat_digits(count as nat) + " package"@ + (if count
            == 1 {
            ""@
        } else {
            "s"@
        }),
{
    let mut line = concat2("Installed ", crate::text::usize_text(count).as_str());
    line.append(" package");
    if count != 1 {
        line.append("s");
    } else {
        proof {
            reveal_strlit("");
            assert(line@ + ""@ =~= line@);
        }
    }
    line
}

/// Parses, combines and checks the modules of a project, `main` first
/// among the pairs of module path and source. Errors and warnings are
/// prefixed with `path` (the main module's file) and `:`. A checked program
/// has a `main` function and well-typed instructions.
pub fn analyze_sources(path: &str, sources: &[(String, String)]) -> (r: Result<(crate::typed::Program, Vec<String>), String>)
    ensures
        r matches Ok(analyzed) ==> crate::codegen::has_function(analyzed.0, "main"@),
        r matches Ok(analyzed) ==> forall|f: int|
            0 <= f < analyzed.0.functions@.len() ==> crate::typed::all_instructions_typed(
                #[trigger] analyzed.0.functions@[f].instructions@,
            ),
        r matches Err(e) ==> (path@ + ":"@).is_prefix_of(e@),
{
    let parsed = match crate::syntax::parse_modules(sources) {
        Ok(parsed) => parsed,
        Err(error) => {
            let message = concat3(path, ":", error.as_str());
            proof {
                reveal_strlit(":");
            }
            assert((path@ + ":"@) =~= message@.subrange(0, path@.len() as int + 1));
            return Err(message);
        },
    };
    let checked = match crate::typed::check(&parsed) {
        Ok(checked) => checked,
        Err(error) => {
            let message = concat3(path, ":", error.as_str());
            proof {
                reveal_strlit(":");
            }
            assert((path@ + ":"@) =~= message@.subrange(0, path@.len() as int + 1));
            return Err(message);
        },
    };
    proof {
        let i = choose|i: int| 0 <= i < parsed.functions@.len() && (#[trigger] parsed.functions@[i]).name@ == "main"@;
        assert(checked.functions@[i].name@ == "main"@);
    }
    let found = crate::diagnostics::warnings(&parsed);
    let mut warnings: Vec<String> = Vec::new();
    let mut i: usize = 0;
    while i < found.len()
        invariant
            i <= found.len(),
            warnings@.len() == i,
            forall|k: int| 0 <= k < i ==> (#[trigger] warnings@[k])@ == path@ + ":"@ + found@[k]@,
        decreases found.len() - i,
    {
        warnings.push(concat3(path, ":", found[i].as_str()));
        i = i + 1;
    }
    Ok((checked, warnings))
}

} // verus!
