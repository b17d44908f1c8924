//! Modules: the dependencies a source declares with `pack`, and the
//! combination of several modules into one program, with the declarations of
//! each module renamed to `admod__<path>__<name>` and `use` lists resolved.

#![verifier::loop_isolation(false)]

use super::generics::no_end;
use super::lexer::{lex, lexed, lexeme_of, lexemes, Lexeme};
use super::parser::{all_slots_declared, declares, parse_tokens};
use super::{
    clone_positioned, is_end, is_symbol, is_word, position_text, well_formed_tokens, Position,
    PositionedToken, Program, Token,
};
use crate::text::{chars_of, concat2, concat3, owned, push_char, str_eq, string_views};
use vstd::prelude::*;

verus! {

/// The texts joined with `/` between them.
pub open spec fn joined_path(parts: Seq<Seq<char>>) -> Seq<char>
    decreases parts.len(),
{
    if parts.len() == 0 {
        Seq::empty()
    } else if parts.len() == 1 {
        parts[0]
    } else {
        joined_path(parts.drop_last()) + "/"@ + parts.last()
    }
}

/// The strings of `parts` joined with `/`.
fn join_path(parts: &Vec<String>) -> (r: String)
    ensures
        r@ == joined_path(parts@.map_values(|p: String| p@)),
{
    let ghost views = parts@.map_values(|p: String| p@);
    let mut r = String::new();
    let mut i: usize = 0;
    while i < parts.len()
        invariant
            i <= parts@.len(),
            views == parts@.map_values(|p: String| p@),
            r@ == joined_path(views.subrange(0, i as int)),
        decreases parts.len() - i,
    {
        if i > 0 {
            r.append("/");
        }
        r.append(parts[i].as_str());
        proof {
            let next = views.subrange(0, i + 1);
            assert(next.drop_last() =~= views.subrange(0, i as int));
            if i == 0 {
                assert(next =~= seq![parts@[0]@]);
            }
        }
        i = i + 1;
    }
    assert(views.subrange(0, parts@.len() as int) =~= views);
    r
}

/// The tokens at `index` and `index + 1` if they are a word and the symbol
/// `c` following it... (the word is returned).
fn word_at(tokens: &Vec<PositionedToken>, index: usize) -> (r: Option<String>)
    ensures
        r matches Some(w) ==> index < tokens@.len() && tokens@[index as int].0 == Token::Word(w),
        r matches Some(w) ==> w@ == tokens@[index as int].0->Word_0@,
        r is None <==> !(index < tokens@.len() && tokens@[index as int].0 is Word),
{
    if index < tokens.len() {
        match &tokens[index].0 {
            Token::Word(word) => Some(word.clone()),
            _ => None,
        }
    } else {
        None
    }
}

/// Whether the token at `index` exists and is the symbol `c`.
fn symbol_at(tokens: &Vec<PositionedToken>, index: usize, c: char) -> (r: bool)
    ensures
        r == (index < tokens@.len() && tokens@[index as int].0 == Token::Symbol(c)),
{
    index < tokens.len() && is_symbol(&tokens[index].0, c)
}

/// Whether the token at `index` exists and is the word `word`.
fn is_word_at(tokens: &Vec<PositionedToken>, index: usize, word: &str) -> (r: bool)
    ensures
        r ==> index < tokens@.len(),
        r == (index < tokens@.len() && tokens@[index as int].0 is Word && tokens@[index as int].0->Word_0@
            == word@),
{
    index < tokens.len() && is_word(&tokens[index].0, word)
}

/// The module path `a/b/c` that starts at `index`: its parts and the index
/// after its last part; `None` when no word starts it or a `/` is followed
/// by something else than a word.
pub open spec fn path_at(lexemes: Seq<(Lexeme, Position)>, index: int) -> Option<(Seq<Seq<char>>, int)>
    decreases lexemes.len() - index,
{
    if 0 <= index < lexemes.len() {
        match lexemes[index].0 {
            Lexeme::Word(part) => if index + 1 < lexemes.len() && lexemes[index + 1].0 == Lexeme::Symbol(
                '/',
            ) {
                extended(seq![part], path_at(lexemes, index + 2))
            } else {
                Some((seq![part], index + 1))
            },
            _ => None,
        }
    } else {
        None
    }
}

/// A path read after the parts `first`.
pub open spec fn extended(first: Seq<Seq<char>>, rest: Option<(Seq<Seq<char>>, int)>) -> Option<
    (Seq<Seq<char>>, int),
> {
    match rest {
        Some((parts, end)) => Some((first + parts, end)),
        None => None,
    }
}

/// A path that is read ends after it starts and has a part.
pub proof fn lemma_path_at_bounds(lexemes: Seq<(Lexeme, Position)>, index: int)
    ensures
        path_at(lexemes, index) matches Some((parts, end)) ==> index < end <= lexemes.len()
            && parts.len() > 0,
    decreases lexemes.len() - index,
{
    if 0 <= index < lexemes.len() && index + 1 < lexemes.len() {
        lemma_path_at_bounds(lexemes, index + 2);
    }
}

/// Reads the module path `a/b/c` that starts at `index` (see `path_at`).
fn read_module_path(tokens: &Vec<PositionedToken>, index: usize) -> (r: Option<(Vec<String>, usize)>)
    requires
        index <= tokens@.len(),
    ensures
        r matches Some((parts, end)) ==> path_at(lexemes(tokens@), index as int) == Some(
            (string_views(parts@), end as int),
        ),
        r is None ==> path_at(lexemes(tokens@), index as int) is None,
        r matches Some((parts, end)) ==> index < end <= tokens@.len(),
{
    let mut parts: Vec<String> = Vec::new();
    let mut index = index;
    let ghost start = index as int;
    assert(extended(string_views(parts@), path_at(lexemes(tokens@), start)) == path_at(lexemes(tokens@), start)) by {
        if let Some((rest, end)) = path_at(lexemes(tokens@), start) {
            assert(string_views(parts@) + rest =~= rest);
        }
    }
    loop
        invariant
            start <= index <= tokens@.len(),
            path_at(lexemes(tokens@), start) == extended(string_views(parts@), path_at(lexemes(tokens@), index as int)),
        decreases tokens@.len() - index,
    {
        if index >= tokens.len() {
            return None;
        }
        let ghost before = string_views(parts@);
        let ghost at = index as int;
        match &tokens[index].0 {
            Token::Word(part) => {
                parts.push(part.clone());
            },
            _ => {
                return None;
            },
        }
        assert(string_views(parts@) =~= before + seq![tokens@[at].0->Word_0@]);
        index = index + 1;
        if !symbol_at(tokens, index, '/') {
            break;
        }
        index = index + 1;
        assert(path_at(lexemes(tokens@), start) == extended(string_views(parts@), path_at(lexemes(tokens@), index as int))) by {
            if let Some((rest, end)) = path_at(lexemes(tokens@), index as int) {
                assert(before + (seq![tokens@[at].0->Word_0@] + rest) =~= string_views(parts@) + rest);
            }
        }
    }
    proof {
        lemma_path_at_bounds(lexemes(tokens@), start);
    }
    Some((parts, index))
}

/// What `module_dependencies` finds from `index` on, at brace depth `depth`,
/// after finding `found`: each `pack a/b;` at depth zero adds `a/b`.
pub open spec fn dependencies_from(
    lexemes: Seq<(Lexeme, Position)>,
    index: int,
    depth: int,
    found: Seq<Seq<char>>,
) -> Result<Seq<Seq<char>>, Seq<char>>
    decreases lexemes.len() - index,
{
    if index < 0 || index >= lexemes.len() {
        Ok(found)
    } else if lexemes[index].0 == Lexeme::Symbol('{') {
        dependencies_from(lexemes, index + 1, depth + 1, found)
    } else if lexemes[index].0 == Lexeme::Symbol('}') {
        dependencies_from(lexemes, index + 1, depth - 1, found)
    } else if lexemes[index].0 == Lexeme::Word("pack"@) && depth == 0 {
        let position = lexemes[index].1;
        match path_at(lexemes, index + 1) {
            None => Err(position_text(position, "expected module path after 'pack'"@)),
            Some((parts, end)) => if end < lexemes.len() && lexemes[end].0 == Lexeme::Symbol(';') {
                proof {
                    lemma_path_at_bounds(lexemes, index + 1);
                }
                dependencies_from(lexemes, end + 1, depth, found.push(joined_path(parts)))
            } else {
                Err(position_text(position, "expected ';' after module path"@))
            },
        }
    } else {
        dependencies_from(lexemes, index + 1, depth, found)
    }
}

/// The modules that a source imports: the lexer's error, or the
/// dependencies found in its lexemes.
pub open spec fn source_dependencies(source: Seq<char>) -> Result<Seq<Seq<char>>, Seq<char>> {
    match lexed(source) {
        Ok(lexemes) => dependencies_from(lexemes, 0, 0, seq![]),
        Err(message) => Err(message),
    }
}

/// The modules that the tokens of a source import with `pack a/b;` at brace
/// depth zero, as `a/b` paths in order.
pub fn token_dependencies(tokens: &Vec<PositionedToken>) -> (r: Result<Vec<String>, String>)
    ensures
        match r {
            Ok(found) => dependencies_from(lexemes(tokens@), 0, 0, seq![]) == Ok::<
                Seq<Seq<char>>,
                Seq<char>,
            >(string_views(found@)),
            Err(message) => dependencies_from(lexemes(tokens@), 0, 0, seq![]) == Err::<
                Seq<Seq<char>>,
                Seq<char>,
            >(message@),
        },
{
    let ghost all = lexemes(tokens@);
    let mut dependencies: Vec<String> = Vec::new();
    let mut index: usize = 0;
    let mut opened: usize = 0;
    let mut closed: usize = 0;
    assert(string_views(dependencies@) =~= seq![]);
    while index < tokens.len()
        invariant
            all == lexemes(tokens@),
            index <= tokens@.len(),
            opened <= index,
            closed <= index,
            dependencies_from(all, 0, 0, seq![]) == dependencies_from(
                all,
                index as int,
                opened - closed,
                string_views(dependencies@),
            ),
        decreases tokens.len() - index,
    {
        assert(all[index as int].0 == lexeme_of(tokens@[index as int].0));
        if is_symbol(&tokens[index].0, '{') {
            opened = opened + 1;
        } else if is_symbol(&tokens[index].0, '}') {
            closed = closed + 1;
        } else if is_word(&tokens[index].0, "pack") && opened == closed {
            let position = tokens[index].1;
            let (parts, end) = match read_module_path(tokens, index + 1) {
                Some(path) => path,
                None => {
                    return Err(position.error("expected module path after 'pack'"));
                },
            };
            proof {
                lemma_path_at_bounds(all, index + 1);
            }
            index = end;
            if !symbol_at(tokens, index, ';') {
                return Err(position.error("expected ';' after module path"));
            }
            assert(all[index as int].0 == lexeme_of(tokens@[index as int].0));
            let ghost before = string_views(dependencies@);
            dependencies.push(join_path(&parts));
            assert(string_views(dependencies@) =~= before.push(joined_path(string_views(parts@))));
        } else {
            assert(all[index as int].0 != Lexeme::Word("pack"@) || opened != closed);
        }
        index = index + 1;
    }
    Ok(dependencies)
}

/// The modules that a source imports with `pack a/b;` at brace depth zero,
/// as `a/b` paths in order, or the error of its lexing or of a `pack`
/// declaration.
pub fn module_dependencies(source: &str) -> (r: Result<Vec<String>, String>)
    ensures
        match r {
            Ok(found) => source_dependencies(source@) == Ok::<Seq<Seq<char>>, Seq<char>>(
                string_views(found@),
            ),
            Err(message) => source_dependencies(source@) == Err::<Seq<Seq<char>>, Seq<char>>(
                message@,
            ),
        },
{
    let tokens = lex(source)?;
    token_dependencies(&tokens)
}

/// What a module declaration is.
#[derive(Clone, Copy, PartialEq, Eq, Structural)]
enum ExportKind {
    Function,
    Enum,
    Class,
    TypeAlias,
    Trait,
}

/// A name that a module declares: its name in the combined program, its
/// kind, and whether other modules may import it (an enum needs `pub`).
#[derive(Clone)]
struct Export {
    canonical: String,
    kind: ExportKind,
    public: bool,
}

/// `(module, name, export)` for every declaration of every module.
type Exports = Vec<(String, String, Export)>;

/// The prefix of a module's names: `admod__`, the path with each `/` written
/// `__`, and `__`.
pub open spec fn prefix_of(module: Seq<char>) -> Seq<char> {
    "admod__"@ + module.flat_map(|c: char| if c == '/' { "__"@ } else { seq![c] }) + "__"@
}

/// The prefix of a module's names (see `prefix_of`).
pub fn module_prefix(module: &str) -> (r: String)
    ensures
        r@ == prefix_of(module@),
{
    let chars = chars_of(module);
    let ghost f = |c: char| if c == '/' { "__"@ } else { seq![c] };
    let mut r = owned("admod__");
    proof {
        reveal_strlit("admod__");
        reveal_strlit("__");
    }
    let mut i: usize = 0;
    while i < chars.len()
        invariant
            i <= chars@.len(),
            chars@ == module@,
            r@ == "admod__"@ + chars@.subrange(0, i as int).flat_map(f),
        decreases chars.len() - i,
    {
        proof {
            let prefix = chars@.subrange(0, i as int);
            let next = chars@.subrange(0, i + 1);
            assert(next =~= prefix.push(chars@[i as int]));
            prefix.lemma_flat_map_push(f, chars@[i as int]);
        }
        if chars[i] == '/' {
            r.append("__");
        } else {
            push_char(&mut r, chars[i]);
        }
        proof {
            assert(r@ == "admod__"@ + chars@.subrange(0, i + 1).flat_map(f));
        }
        i = i + 1;
    }
    assert(chars@.subrange(0, chars@.len() as int) =~= module@);
    r.append("__");
    r
}

/// The export of `name` declared by `module`.
fn find_export(exports: &Exports, module: &str, name: &str) -> (r: Option<usize>)
    ensures
        r matches Some(i) ==> i < exports@.len() && exports@[i as int].0@ == module@
            && exports@[i as int].1@ == name@,
        r matches Some(i) ==> forall|j: int| 0 <= j < i ==> !((#[trigger] exports@[j]).0@ == module@
            && exports@[j].1@ == name@),
        r is None ==> forall|j: int| 0 <= j < exports@.len() ==> !((#[trigger] exports@[j]).0@
            == module@ && exports@[j].1@ == name@),
{
    let mut i: usize = 0;
    while i < exports.len()
        invariant
            i <= exports@.len(),
            forall|j: int| 0 <= j < i ==> !((#[trigger] exports@[j]).0@ == module@ && exports@[j].1@
                == name@),
        decreases exports.len() - i,
    {
        if str_eq(exports[i].0.as_str(), module) && str_eq(exports[i].1.as_str(), name) {
            return Some(i);
        }
        i = i + 1;
    }
    None
}

/// The declaration kind that a keyword starts.
fn declaration_kind(token: &Token) -> (r: Option<ExportKind>)
    ensures
        r == (if !(token is Word) {
            None
        } else if token->Word_0@ == "fun"@ {
            Some(ExportKind::Function)
        } else if token->Word_0@ == "enum"@ {
            Some(ExportKind::Enum)
        } else if token->Word_0@ == "class"@ {
            Some(ExportKind::Class)
        } else if token->Word_0@ == "define"@ {
            Some(ExportKind::TypeAlias)
        } else if token->Word_0@ == "trait"@ {
            Some(ExportKind::Trait)
        } else {
            None
        }),
{
    if is_word(token, "fun") {
        Some(ExportKind::Function)
    } else if is_word(token, "enum") {
        Some(ExportKind::Enum)
    } else if is_word(token, "class") {
        Some(ExportKind::Class)
    } else if is_word(token, "define") {
        Some(ExportKind::TypeAlias)
    } else if is_word(token, "trait") {
        Some(ExportKind::Trait)
    } else {
        None
    }
}

/// What a declaration keyword declares.
spec fn export_kind_of(token: Token) -> Option<ExportKind> {
    if !(token is Word) {
        None
    } else if token->Word_0@ == "fun"@ {
        Some(ExportKind::Function)
    } else if token->Word_0@ == "enum"@ {
        Some(ExportKind::Enum)
    } else if token->Word_0@ == "class"@ {
        Some(ExportKind::Class)
    } else if token->Word_0@ == "define"@ {
        Some(ExportKind::TypeAlias)
    } else if token->Word_0@ == "trait"@ {
        Some(ExportKind::Trait)
    } else {
        None
    }
}

/// An export entry as texts: module, name, canonical name, kind, public.
spec fn export_view(entry: (String, String, Export)) -> (Seq<char>, Seq<char>, Seq<char>, ExportKind, bool) {
    (entry.0@, entry.1@, entry.2.canonical@, entry.2.kind, entry.2.public)
}

spec fn export_views(entries: Seq<(String, String, Export)>) -> Seq<(Seq<char>, Seq<char>, Seq<char>, ExportKind, bool)> {
    entries.map_values(|entry: (String, String, Export)| export_view(entry))
}

/// The exports after reading the declarations of `module` from token
/// `index` on, where `opened` and `closed` braces were read so far: each
/// declaration keyword at brace depth zero followed by a name adds that
/// name; `None` when a name is declared twice in the module.
spec fn exports_scan(
    module: Seq<char>,
    tokens: Seq<PositionedToken>,
    index: int,
    opened: int,
    closed: int,
    views: Seq<(Seq<char>, Seq<char>, Seq<char>, ExportKind, bool)>,
) -> Option<Seq<(Seq<char>, Seq<char>, Seq<char>, ExportKind, bool)>>
    decreases tokens.len() - index,
{
    if index < 0 || index + 1 >= tokens.len() {
        Some(views)
    } else if tokens[index].0 == Token::Symbol('{') {
        exports_scan(module, tokens, index + 1, opened + 1, closed, views)
    } else if tokens[index].0 == Token::Symbol('}') {
        exports_scan(module, tokens, index + 1, opened, closed + 1, views)
    } else if opened == closed && export_kind_of(tokens[index].0) is Some && tokens[index
        + 1].0 is Word {
        let name = tokens[index + 1].0->Word_0@;
        let kind = export_kind_of(tokens[index].0)->0;
        if exists|j: int| 0 <= j < views.len() && (#[trigger] views[j]).0 == module && views[j].1 == name {
            None
        } else {
            let canonical = if module.len() == 0 {
                name
            } else {
                prefix_of(module) + name
            };
            let public = kind != ExportKind::Enum || (index > 0 && tokens[index - 1].0 is Word
                && tokens[index - 1].0->Word_0@ == "pub"@);
            exports_scan(
                module,
                tokens,
                index + 1,
                opened,
                closed,
                views.push((module, name, canonical, kind, public)),
            )
        }
    } else {
        exports_scan(module, tokens, index + 1, opened, closed, views)
    }
}

/// Records the declarations at brace depth zero of one module.
fn collect_exports(module: &String, tokens: &Vec<PositionedToken>, exports: &mut Exports)
    -> (r: Result<(), String>)
    ensures
        r is Ok <==> exports_scan(module@, tokens@, 0, 0, 0, export_views(old(exports)@)) is Some,
        r is Ok ==> export_views(final(exports)@) == exports_scan(
            module@,
            tokens@,
            0,
            0,
            0,
            export_views(old(exports)@),
        )->0,
{
    let mut opened: usize = 0;
    let mut closed: usize = 0;
    let mut index: usize = 0;
    while index < tokens.len() && index + 1 < tokens.len()
        invariant
            opened <= index,
            closed <= index,
            exports_scan(module@, tokens@, 0, 0, 0, export_views(old(exports)@)) == exports_scan(
                module@,
                tokens@,
                index as int,
                opened as int,
                closed as int,
                export_views(exports@),
            ),
        decreases tokens.len() - index,
    {
        if is_symbol(&tokens[index].0, '{') {
            opened = opened + 1;
        } else if is_symbol(&tokens[index].0, '}') {
            closed = closed + 1;
        } else if opened == closed {
            if let Some(kind) = declaration_kind(&tokens[index].0) {
                if let Token::Word(name) = &tokens[index + 1].0 {
                    let canonical = if module.as_str().is_empty() {
                        name.clone()
                    } else {
                        concat2(module_prefix(module.as_str()).as_str(), name.as_str())
                    };
                    let public = kind != ExportKind::Enum || (index > 0 && is_word(
                        &tokens[index - 1].0,
                        "pub",
                    ));
                    if find_export(exports, module.as_str(), name.as_str()).is_some() {
                        proof {
                            let k = choose|k: int| 0 <= k < exports@.len() && exports@[k].0@ == module@
                                && exports@[k].1@ == name@;
                            assert(export_views(exports@)[k].0 == module@);
                        }
                        let mut message = concat3("'", name.as_str(), "' is declared twice in module '");
                        message.append(module.as_str());
                        message.append("'");
                        return Err(tokens[index + 1].1.error(message.as_str()));
                    }
                    let ghost before = export_views(exports@);
                    proof {
                        assert(!(exists|j: int| 0 <= j < before.len() && (#[trigger] before[j]).0
                            == module@ && before[j].1 == name@)) by {
                            if exists|j: int| 0 <= j < before.len() && (#[trigger] before[j]).0
                                == module@ && before[j].1 == name@ {
                                let j = choose|j: int| 0 <= j < before.len() && (#[trigger] before[j]).0
                                    == module@ && before[j].1 == name@;
                                assert(exports@[j].0@ == module@ && exports@[j].1@ == name@);
                            }
                        }
                    }
                    exports.push((module.clone(), name.clone(), Export { canonical, kind, public }));
                    assert(export_views(exports@) =~= before.push(
                        (module@, name@, canonical@, kind, public),
                    ));
                }
            }
        }
        index = index + 1;
    }
    Ok(())
}

/// The export of a name, if `entries` binds it.
fn find_local(entries: &Vec<(String, Export)>, name: &str) -> (r: Option<usize>)
    ensures
        r matches Some(i) ==> i < entries@.len() && entries@[i as int].0@ == name@,
        r matches Some(i) ==> forall|j: int| 0 <= j < i ==> (#[trigger] entries@[j]).0@ != name@,
        r is None ==> forall|j: int| 0 <= j < entries@.len() ==> (#[trigger] entries@[j]).0@ != name@,
{
    let mut i: usize = 0;
    while i < entries.len()
        invariant
            i <= entries@.len(),
            forall|j: int| 0 <= j < i ==> (#[trigger] entries@[j]).0@ != name@,
        decreases entries.len() - i,
    {
        if str_eq(entries[i].0.as_str(), name) {
            return Some(i);
        }
        i = i + 1;
    }
    None
}

/// Marks `from..=to` as removed; indexes past the end need no mark, as
/// nothing is read there.
fn mark_removed(removed: &mut Vec<bool>, from: usize, to: usize)
    ensures
        final(removed)@.len() == old(removed)@.len(),
        forall|j: int| 0 <= j < old(removed)@.len() ==> #[trigger] final(removed)@[j] == ((from <= j
            && j <= to) || old(removed)@[j]),
{
    let mut k = from;
    while k <= to && k < removed.len()
        invariant
            removed@.len() == old(removed)@.len(),
            from <= k,
            k <= to + 1 || k == from,
            forall|j: int| 0 <= j < removed@.len() ==> #[trigger] removed@[j] == ((from <= j && j < k)
                || old(removed)@[j]),
        decreases removed.len() - k,
    {
        removed.set(k, true);
        k = k + 1;
    }
}

/// Reads the `use path:[a, b];` and `pack path;` declarations at brace
/// depth zero of one module: the imported names with their exports, and the
/// tokens of these declarations, which the combination leaves out.
fn read_imports(
    module: &String,
    tokens: &Vec<PositionedToken>,
    exports: &Exports,
    local: &Vec<(String, Export)>,
) -> (r: Result<(Vec<(String, Export)>, Vec<bool>), String>)
    requires
        well_formed_tokens(tokens@),
    ensures
        r matches Ok((imports, removed)) ==> removed@.len() == tokens@.len(),
{
    let mut imports: Vec<(String, Export)> = Vec::new();
    let mut removed: Vec<bool> = Vec::new();
    let mut k: usize = 0;
    while k < tokens.len()
        invariant
            removed@.len() == k,
            k <= tokens@.len(),
        decreases tokens.len() - k,
    {
        removed.push(false);
        k = k + 1;
    }
    let mut opened: usize = 0;
    let mut closed: usize = 0;
    let mut index: usize = 0;
    while index < tokens.len()
        invariant
            well_formed_tokens(tokens@),
            removed@.len() == tokens@.len(),
            opened <= index,
            closed <= index,
            index <= tokens@.len(),
        decreases tokens.len() - index,
    {
        if is_symbol(&tokens[index].0, '{') {
            opened = opened + 1;
        } else if is_symbol(&tokens[index].0, '}') {
            closed = closed + 1;
        } else if opened == closed && is_word(&tokens[index].0, "pack") {
            let ghost pack_start = index;
            while index < tokens.len() && !is_symbol(&tokens[index].0, ';')
                invariant
                    pack_start <= index,
                    removed@.len() == tokens@.len(),
                    index <= tokens@.len(),
                    opened <= index,
                    closed <= index,
                decreases tokens.len() - index,
            {
                removed.set(index, true);
                index = index + 1;
            }
            if index >= removed.len() {
                break;
            }
            removed.set(index, true);
        } else if opened == closed && is_word(&tokens[index].0, "use") {
            let start = index;
            let (parts, end) = match read_module_path(tokens, index + 1) {
                Some(path) => path,
                None => {
                    return Err(tokens[start].1.error("expected module path after 'use'"));
                },
            };
            index = end;
            if !(symbol_at(tokens, index, ':') && symbol_at(tokens, index + 1, '[')) {
                return Err(tokens[start].1.error("expected ':[' after module path"));
            }
            index = index + 2;
            let path = join_path(&parts);
            loop
                invariant
                    well_formed_tokens(tokens@),
                    removed@.len() == tokens@.len(),
                    start < index <= tokens@.len(),
                    opened <= index,
                    closed <= index,
                decreases tokens@.len() - index,
            {
                let (name, position) = match word_at(tokens, index) {
                    Some(name) => (name, tokens[index].1),
                    None => {
                        return Err(tokens[start].1.error("expected imported symbol name"));
                    },
                };
                let exported = match find_export(exports, path.as_str(), name.as_str()) {
                    Some(e) => exports[e].2.clone(),
                    None => {
                        let mut message = concat3("module '", path.as_str(), "' does not export '");
                        message.append(name.as_str());
                        message.append("'");
                        return Err(position.error(message.as_str()));
                    },
                };
                if !exported.public {
                    let mut message = concat3("enum '", name.as_str(), "' is private in module '");
                    message.append(path.as_str());
                    message.append("'");
                    return Err(position.error(message.as_str()));
                }
                if find_local(local, name.as_str()).is_some() || find_local(
                    &imports,
                    name.as_str(),
                ).is_some() {
                    let message = concat3(
                        "imported name '",
                        name.as_str(),
                        "' conflicts with another name",
                    );
                    return Err(position.error(message.as_str()));
                }
                imports.push((name, exported));
                assert(index < tokens@.len() - 1) by {
                    assert(tokens@.last() == tokens@[tokens@.len() - 1]);
                }
                index = index + 1;
                if symbol_at(tokens, index, ']') {
                    index = index + 1;
                    break;
                }
                if !symbol_at(tokens, index, ',') {
                    return Err(tokens[index].1.error("expected ',' or ']' in use list"));
                }
                index = index + 1;
            }
            if !symbol_at(tokens, index, ';') {
                return Err(tokens[start].1.error("expected ';' after use declaration"));
            }
            mark_removed(&mut removed, start, index);
        }
        index = index + 1;
    }
    Ok((imports, removed))
}


/// The token before `index`, if there is one.
fn previous_token(tokens: &Vec<PositionedToken>, index: usize) -> (r: Option<&Token>)
    ensures
        r == (if 0 < index && index - 1 < tokens@.len() {
            Some(&tokens@[index - 1].0)
        } else {
            None
        }),
{
    if index > 0 && index - 1 < tokens.len() {
        Some(&tokens[index - 1].0)
    } else {
        None
    }
}

/// Whether, looking back from `k - 1`, the word `implements` comes before
/// any `{` or `;` and before a position past the end of the tokens.
pub open spec fn implements_before(tokens: Seq<PositionedToken>, k: int) -> bool
    decreases k,
{
    if k <= 0 || k - 1 >= tokens.len() {
        false
    } else if tokens[k - 1].0 == Token::Symbol('{') || tokens[k - 1].0 == Token::Symbol(';') {
        false
    } else if tokens[k - 1].0 is Word && tokens[k - 1].0->Word_0@ == "implements"@ {
        true
    } else {
        implements_before(tokens, k - 1)
    }
}

/// Whether `implements` comes before `index - 1` in the same header, that is
/// with no `{` or `;` between.
fn after_implements(tokens: &Vec<PositionedToken>, index: usize) -> (r: bool)
    ensures
        r == implements_before(tokens@, index as int),
{
    let mut k = index;
    while k > 0
        invariant
            k <= index,
            implements_before(tokens@, index as int) == implements_before(tokens@, k as int),
        decreases k,
    {
        k = k - 1;
        if k >= tokens.len() {
            return false;
        }
        let token = &tokens[k].0;
        if is_symbol(token, '{') || is_symbol(token, ';') {
            return false;
        }
        if is_word(token, "implements") {
            return true;
        }
    }
    false
}

/// Whether the name at `index` is used, by the tokens around it, as a
/// reference to a declaration of kind `kind`.
fn is_reference(tokens: &Vec<PositionedToken>, index: usize, kind: ExportKind) -> (r: bool)
    requires
        index < tokens@.len(),
    ensures
        r == reference_use(tokens@, index as int, kind),
{
    let n = tokens.len();
    let call_or_generic = symbol_at(tokens, index + 1, '(') || symbol_at(tokens, index + 1, '<');
    let previous = previous_token(tokens, index);
    let after_colon = match previous {
        Some(token) => is_symbol(token, ':'),
        None => false,
    };
    match kind {
        ExportKind::Function => call_or_generic,
        ExportKind::Enum => symbol_at(tokens, index + 1, '.') || after_colon,
        ExportKind::Class => call_or_generic || after_colon,
        ExportKind::TypeAlias => match previous {
            Some(token) => is_symbol(token, ':') || is_symbol(token, '[') || is_symbol(token, '=')
                || (is_symbol(token, '(') && index >= 2 && is_word_at(tokens, index - 2, "as")),
            None => false,
        },
        ExportKind::Trait => match previous {
            Some(token) => is_word(token, "implements") || is_symbol(token, ':') || (is_symbol(
                token,
                ',',
            ) && after_implements(tokens, index)),
            None => false,
        },
    }
}

/// Whether the name at `index` is used, by the tokens around it, as a
/// reference to a declaration of kind `kind`: a function is called (or
/// given type arguments), an enum is followed by `.` or follows `:`, a class
/// is called or follows `:`, a type alias follows `:`, `[`, `=` or `as(`,
/// and a trait follows `implements`, `:` or a `,` in an `implements` list.
spec fn reference_use(tokens: Seq<PositionedToken>, index: int, kind: ExportKind) -> bool {
    let next_is = |c: char| index + 1 < tokens.len() && tokens[index + 1].0 == Token::Symbol(c);
    let previous_is = |c: char| index > 0 && tokens[index - 1].0 == Token::Symbol(c);
    match kind {
        ExportKind::Function => next_is('(') || next_is('<'),
        ExportKind::Enum => next_is('.') || previous_is(':'),
        ExportKind::Class => next_is('(') || next_is('<') || previous_is(':'),
        ExportKind::TypeAlias => previous_is(':') || previous_is('[') || previous_is('=') || (
        previous_is('(') && index >= 2 && tokens[index - 2].0 is Word && tokens[index - 2].0->Word_0@
            == "as"@),
        ExportKind::Trait => (index > 0 && tokens[index - 1].0 is Word && tokens[index - 1].0->Word_0@
            == "implements"@) || previous_is(':') || (previous_is(',') && implements_before(
            tokens,
            index,
        )),
    }
}

/// A copy of an export.
fn copy_export(export: &Export) -> (r: Export)
    ensures
        r.canonical@ == export.canonical@,
        r.kind == export.kind,
        r.public == export.public,
{
    Export { canonical: export.canonical.clone(), kind: export.kind, public: export.public }
}

/// The export that `name` resolves to in a module: its own declaration, or
/// else an import.
fn resolve(local: &Vec<(String, Export)>, imports: &Vec<(String, Export)>, name: &str) -> (r: Option<
    Export,
>)
    ensures
        r is Some <==> (exists|i: int| 0 <= i < local@.len() && (#[trigger] local@[i]).0@ == name@)
            || (exists|i: int| 0 <= i < imports@.len() && (#[trigger] imports@[i]).0@ == name@),
        r matches Some(e) ==> exists|i: int|
            ((0 <= i < local@.len() && local@[i].0@ == name@ && (forall|j: int|
                0 <= j < i ==> (#[trigger] local@[j]).0@ != name@) && e.canonical@ == local@[i].1.canonical@
                && e.kind == local@[i].1.kind && e.public == local@[i].1.public) || ((forall|j: int|
                0 <= j < local@.len() ==> (#[trigger] local@[j]).0@ != name@) && 0 <= i
                < imports@.len() && imports@[i].0@ == name@ && (forall|j: int|
                0 <= j < i ==> (#[trigger] imports@[j]).0@ != name@) && e.canonical@
                == imports@[i].1.canonical@ && e.kind == imports@[i].1.kind && e.public
                == imports@[i].1.public)),
{
    match find_local(local, name) {
        Some(l) => Some(copy_export(&local[l].1)),
        None => match find_local(imports, name) {
            Some(i) => Some(copy_export(&imports[i].1)),
            None => None,
        },
    }
}

/// Appends the tokens of one module to `combined`, without its final `End`,
/// its `use` and `pack` declarations and the `pub` of its enums, with its
/// declarations and the names it resolves renamed to their canonical names.
fn combine_module(
    tokens: &Vec<PositionedToken>,
    exports: &Exports,
    local: &Vec<(String, Export)>,
    imports: &Vec<(String, Export)>,
    removed: &Vec<bool>,
    combined: &mut Vec<PositionedToken>,
)
    requires
        well_formed_tokens(tokens@),
        removed@.len() == tokens@.len(),
        no_end(old(combined)@),
    ensures
        no_end(final(combined)@),
{
    let mut opened: usize = 0;
    let mut closed: usize = 0;
    let mut index: usize = 0;
    while index < tokens.len()
        invariant
            well_formed_tokens(tokens@),
            removed@.len() == tokens@.len(),
            no_end(combined@),
            index <= tokens@.len(),
            opened <= index,
            closed <= index,
        decreases tokens.len() - index,
    {
        if removed[index] {
            index = index + 1;
            continue;
        }
        if is_end(&tokens[index].0) {
            break;
        }
        if opened == closed && is_word(&tokens[index].0, "pub") && is_word_at(
            tokens,
            index + 1,
            "enum",
        ) {
            index = index + 1;
            continue;
        }
        let position = tokens[index].1;
        if let Token::Word(first) = &tokens[index].0 {
            let mut path_parts: Vec<String> = Vec::new();
            path_parts.push(first.clone());
            let mut cursor = index + 1;
            while symbol_at(tokens, cursor, '/') && word_at(tokens, cursor + 1).is_some()
                invariant
                    index < cursor <= tokens@.len(),
                decreases tokens.len() - cursor,
            {
                if let Some(part) = word_at(tokens, cursor + 1) {
                    path_parts.push(part);
                }
                cursor = cursor + 2;
            }
            if symbol_at(tokens, cursor, ':') {
                if let Some(name) = word_at(tokens, cursor + 1) {
                    let path = join_path(&path_parts);
                    if let Some(e) = find_export(exports, path.as_str(), name.as_str()) {
                        let canonical = exports[e].2.canonical.clone();
                        super::generics::push_non_end(combined, (Token::Word(canonical), position));
                        index = cursor + 2;
                        continue;
                    }
                }
            }
        }
        let mut token = super::clone_token(&tokens[index].0);
        if let Token::Word(name) = &tokens[index].0 {
            if let Some(export) = resolve(local, imports, name.as_str()) {
                let declaration = opened == closed && index > 0 && match previous_token(
                    tokens,
                    index,
                ) {
                    Some(previous) => super::parser::is_declaration_word(previous),
                    None => false,
                };
                if declaration || is_reference(tokens, index, export.kind) {
                    token = Token::Word(export.canonical);
                }
            }
        }
        if is_symbol(&token, '{') {
            opened = opened + 1;
        } else if is_symbol(&token, '}') {
            closed = closed + 1;
        }
        super::generics::push_non_end(combined, (token, position));
        index = index + 1;
    }
}

/// Combines modules (pairs of a module path and its source; the main module
/// has the empty path) into one program and parses it. Each module's
/// functions, enums, classes, type aliases and traits are renamed
/// `admod__<path with / as __>__<name>`; `use path:[names];` makes those
/// names usable unqualified, `path:name` names one directly, and an enum
/// must be declared `pub` to be imported by another module with `use`.
pub fn parse_modules(files: &[(String, String)]) -> (r: Result<Program, String>)
    ensures
        r matches Ok(program) ==> declares(program.functions@, "main"@),
        r matches Ok(program) ==> all_slots_declared(program.functions@),
        r matches Ok(program) ==> crate::syntax::parser::distinct_functions(program.functions@),
        r matches Ok(program) ==> crate::syntax::parser::calls_checked(program.functions@),
        r matches Ok(program) ==> crate::syntax::parser::classes_numbered(program.classes@),
{
    let mut token_files: Vec<Vec<PositionedToken>> = Vec::new();
    let mut exports: Exports = Vec::new();
    let mut f: usize = 0;
    while f < files.len()
        invariant
            f <= files@.len(),
            token_files@.len() == f,
            forall|g: int| 0 <= g < f ==> well_formed_tokens(#[trigger] token_files@[g]@),
        decreases files.len() - f,
    {
        let tokens = lex(files[f].1.as_str())?;
        collect_exports(&files[f].0, &tokens, &mut exports)?;
        token_files.push(tokens);
        proof {
            assert forall|g: int| 0 <= g < f + 1 implies well_formed_tokens(
                #[trigger] token_files@[g]@,
            ) by {
                if g < f {
                    assert(token_files@[g] == old_files_entry(token_files@, g));
                }
            }
        }
        f = f + 1;
    }
    let mut combined: Vec<PositionedToken> = Vec::new();
    let mut f: usize = 0;
    while f < files.len()
        invariant
            token_files@.len() == files@.len(),
            forall|g: int| 0 <= g < files@.len() ==> well_formed_tokens(#[trigger] token_files@[g]@),
            no_end(combined@),
        decreases files.len() - f,
    {
        let module = &files[f].0;
        let tokens = &token_files[f];
        let mut local: Vec<(String, Export)> = Vec::new();
        let mut e: usize = 0;
        while e < exports.len()
            decreases exports.len() - e,
        {
            if str_eq(exports[e].0.as_str(), module.as_str()) {
                local.push((exports[e].1.clone(), exports[e].2.clone()));
            }
            e = e + 1;
        }
        let (imports, removed) = read_imports(module, tokens, &exports, &local)?;
        combine_module(tokens, &exports, &local, &imports, &removed, &mut combined);
        f = f + 1;
    }
    let ghost before = combined@;
    combined.push((Token::End, Position { line: 1, column: 1 }));
    assert(combined@.drop_last() =~= before);
    parse_tokens(combined)
}

spec fn old_files_entry(files: Seq<Vec<PositionedToken>>, g: int) -> Vec<PositionedToken> {
    files[g]
}

} // verus!
