//! The files and command lines of a native build: the names of the assembly,
//! object and executable files, and the arguments handed to the assembler and
//! the linker on Linux and on Windows.

#![verifier::loop_isolation(false)]

use crate::syntax::{is_white_space, white_space};
use crate::text::{concat2, owned, push_char, string_views};
use vstd::prelude::*;

verus! {

/// The files that building `name` writes into the target directory: the
/// assembly, the object file and the executable.
pub open spec fn output_names(name: Seq<char>, linux: bool) -> (Seq<char>, Seq<char>, Seq<char>) {
    (
        name + ".asm"@,
        name + if linux { ".o"@ } else { ".obj"@ },
        if linux { name } else { name + ".exe"@ },
    )
}

/// The names of the assembly, object and executable files of a build.
pub fn output_files(name: &str, linux: bool) -> (r: (String, String, String))
    ensures
        (r.0@, r.1@, r.2@) == output_names(name@, linux),
{
    let assembly = concat2(name, ".asm");
    let obj = concat2(name, if linux { ".o" } else { ".obj" });
    let exe = if linux { owned(name) } else { concat2(name, ".exe") };
    (assembly, obj, exe)
}

/// The object format that NASM is asked for.
pub fn object_format(linux: bool) -> (r: &'static str)
    ensures
        r@ == if linux { "elf64"@ } else { "win64"@ },
{
    if linux { "elf64" } else { "win64" }
}

/// The words of `s`: its maximal runs of characters that are not white
/// space, in order, as `str::split_whitespace` gives them.
pub open spec fn words(s: Seq<char>) -> Seq<Seq<char>>
    decreases s.len(), s.len() + 1,
{
    if s.len() == 0 {
        seq![]
    } else if is_white_space(s[0]) {
        words(s.drop_first())
    } else {
        word_rest(s, 1)
    }
}

/// The words of `s` when its first `k` characters form the start of a word.
pub open spec fn word_rest(s: Seq<char>, k: int) -> Seq<Seq<char>>
    decreases s.len(), s.len() - k,
{
    if k <= 0 || k > s.len() {
        seq![]
    } else if k == s.len() {
        seq![s]
    } else if is_white_space(s[k]) {
        seq![s.subrange(0, k)] + words(s.subrange(k, s.len() as int))
    } else {
        word_rest(s, k + 1)
    }
}

proof fn lemma_words_skip(s: Seq<char>, i: int)
    requires
        0 <= i < s.len(),
        is_white_space(s[i]),
    ensures
        words(s.subrange(i, s.len() as int)) == words(s.subrange(i + 1, s.len() as int)),
{
    let t = s.subrange(i, s.len() as int);
    assert(t.drop_first() =~= s.subrange(i + 1, s.len() as int));
}

proof fn lemma_word_rest_step(s: Seq<char>, i: int, k: int)
    requires
        0 <= i < k < s.len(),
        !is_white_space(s[k]),
    ensures
        word_rest(s.subrange(i, s.len() as int), k - i) == word_rest(s.subrange(i, s.len() as int), k - i + 1),
{
    let t = s.subrange(i, s.len() as int);
    assert(t[k - i] == s[k]);
}

proof fn lemma_word_rest_end(s: Seq<char>, i: int, k: int)
    requires
        0 <= i < k <= s.len(),
        k == s.len() || is_white_space(s[k]),
    ensures
        word_rest(s.subrange(i, s.len() as int), k - i) == seq![s.subrange(i, k)] + words(s.subrange(k, s.len() as int)),
{
    let t = s.subrange(i, s.len() as int);
    if k == s.len() {
        assert(t.subrange(0, k - i) =~= t);
        assert(s.subrange(k, s.len() as int) =~= Seq::<char>::empty());
        assert(seq![t] + seq![] =~= seq![t]);
        assert(t =~= s.subrange(i, k));
    } else {
        assert(t[k - i] == s[k]);
        assert(t.subrange(0, k - i) =~= s.subrange(i, k));
        assert(t.subrange(k - i, t.len() as int) =~= s.subrange(k, s.len() as int));
    }
}

/// The words of `text`, as `str::split_whitespace` gives them.
pub fn split_words(text: &str) -> (r: Vec<String>)
    ensures
        string_views(r@) == words(text@),
{
    let chars = crate::text::chars_of(text);
    let n = chars.len();
    let ghost s = text@;
    let mut out: Vec<String> = Vec::new();
    let mut i: usize = 0;
    assert(s.subrange(0, n as int) =~= s);
    while i < n
        invariant
            chars@ == s,
            n == s.len(),
            i <= n,
            string_views(out@) + words(s.subrange(i as int, n as int)) == words(s),
        decreases n - i,
    {
        if white_space(chars[i]) {
            proof {
                lemma_words_skip(s, i as int);
            }
            i = i + 1;
        } else {
            let start = i;
            let mut word = String::new();
            proof {
                let t = s.subrange(i as int, n as int);
                assert(t[0] == s[i as int]);
                assert(words(t) == word_rest(t, 1));
            }
            while i < n && !white_space(chars[i])
                invariant
                    chars@ == s,
                    n == s.len(),
                    start < n,
                    start <= i <= n,
                    i > start || !is_white_space(s[start as int]),
                    word@ == s.subrange(start as int, i as int),
                    i > start ==> word_rest(s.subrange(start as int, n as int), (i - start) as int)
                        == words(s.subrange(start as int, n as int)),
                decreases n - i,
            {
                push_char(&mut word, chars[i]);
                proof {
                    if i > start {
                        lemma_word_rest_step(s, start as int, i as int);
                    }
                    assert(word@ =~= s.subrange(start as int, i + 1));
                }
                i = i + 1;
            }
            proof {
                lemma_word_rest_end(s, start as int, i as int);
                assert(string_views(out@.push(word)) =~= string_views(out@).push(word@));
            }
            let ghost before = string_views(out@);
            out.push(word);
            proof {
                assert(string_views(out@) =~= before.push(s.subrange(start as int, i as int)));
                assert(before.push(s.subrange(start as int, i as int)) + words(s.subrange(i as int, n as int))
                    =~= before + (seq![s.subrange(start as int, i as int)] + words(s.subrange(i as int, n as int))));
            }
        }
    }
    proof {
        assert(s.subrange(n as int, n as int) =~= Seq::<char>::empty());
        assert(string_views(out@) + seq![] =~= string_views(out@));
    }
    out
}

/// The arguments of the C compiler driver that links on Linux.
pub open spec fn linux_link_words(obj: Seq<char>, runtime: Seq<char>, libraries: Seq<char>, exe: Seq<char>) -> Seq<Seq<char>> {
    seq!["-no-pie"@, obj, runtime] + words(libraries) + seq!["-o"@, exe]
}

/// The arguments that link an object file with the runtime on Linux.
pub fn linux_link_arguments(obj: &str, runtime: &str, libraries: &str, exe: &str) -> (r: Vec<String>)
    ensures
        string_views(r@) == linux_link_words(obj@, runtime@, libraries@, exe@),
{
    let mut r: Vec<String> = Vec::new();
    r.push(owned("-no-pie"));
    r.push(owned(obj));
    r.push(owned(runtime));
    let extra = split_words(libraries);
    let ghost head = string_views(r@);
    let mut i: usize = 0;
    while i < extra.len()
        invariant
            i <= extra.len(),
            string_views(r@) == head + string_views(extra@).subrange(0, i as int),
        decreases extra.len() - i,
    {
        let ghost before = string_views(r@);
        r.push(owned(extra[i].as_str()));
        assert(string_views(r@) =~= before.push(extra@[i as int]@));
        assert(string_views(extra@)[i as int] == extra@[i as int]@);
        assert(string_views(r@) =~= head + string_views(extra@).subrange(0, i + 1));
        i = i + 1;
    }
    let ghost middle = string_views(r@);
    r.push(owned("-o"));
    r.push(owned(exe));
    proof {
        assert(string_views(r@) =~= middle.push("-o"@).push(exe@));
        assert(string_views(extra@).subrange(0, extra.len() as int) =~= string_views(extra@));
        assert(string_views(r@) =~= linux_link_words(obj@, runtime@, libraries@, exe@));
    }
    r
}

/// The arguments of the Microsoft linker.
pub open spec fn msvc_link_words(obj: Seq<char>, runtime: Seq<char>, libraries: Seq<char>, exe: Seq<char>) -> Seq<Seq<char>> {
    seq![
        "/nologo"@,
        "/machine:x64"@,
        "/subsystem:console"@,
        "/dynamicbase"@,
        "/nxcompat"@,
        "/out:"@ + exe,
        obj,
        runtime,
    ] + words(libraries) + seq!["kernel32.lib"@]
}

/// The arguments that link an object file with the runtime on Windows.
pub fn msvc_link_arguments(obj: &str, runtime: &str, libraries: &str, exe: &str) -> (r: Vec<String>)
    ensures
        string_views(r@) == msvc_link_words(obj@, runtime@, libraries@, exe@),
{
    let mut r: Vec<String> = Vec::new();
    r.push(owned("/nologo"));
    r.push(owned("/machine:x64"));
    r.push(owned("/subsystem:console"));
    r.push(owned("/dynamicbase"));
    r.push(owned("/nxcompat"));
    r.push(concat2("/out:", exe));
    r.push(owned(obj));
    r.push(owned(runtime));
    let extra = split_words(libraries);
    let ghost head = string_views(r@);
    let mut i: usize = 0;
    while i < extra.len()
        invariant
            i <= extra.len(),
            string_views(r@) == head + string_views(extra@).subrange(0, i as int),
        decreases extra.len() - i,
    {
        let ghost before = string_views(r@);
        r.push(owned(extra[i].as_str()));
        assert(string_views(r@) =~= before.push(extra@[i as int]@));
        assert(string_views(extra@)[i as int] == extra@[i as int]@);
        assert(string_views(r@) =~= head + string_views(extra@).subrange(0, i + 1));
        i = i + 1;
    }
    let ghost middle = string_views(r@);
    r.push(owned("kernel32.lib"));
    proof {
        assert(string_views(r@) =~= middle.push("kernel32.lib"@));
        assert(string_views(extra@).subrange(0, extra.len() as int) =~= string_views(extra@));
        assert(string_views(r@) =~= msvc_link_words(obj@, runtime@, libraries@, exe@));
    }
    r
}

/// `s` with each `"` written as `\"`.
pub open spec fn escaped(s: Seq<char>) -> Seq<char>
    decreases s.len(),
{
    if s.len() == 0 {
        seq![]
    } else {
        escaped(s.drop_last()) + if s.last() == '"' { seq!['\\', '"'] } else { seq![s.last()] }
    }
}

/// The lines of a linker response file: each argument in double quotes, with
/// its quotes escaped, one per line.
pub open spec fn response_lines(arguments: Seq<Seq<char>>) -> Seq<char>
    decreases arguments.len(),
{
    if arguments.len() == 0 {
        seq![]
    } else if arguments.len() == 1 {
        seq!['"'] + escaped(arguments[0]) + seq!['"']
    } else {
        response_lines(arguments.drop_last()) + seq!['\n', '"'] + escaped(arguments.last()) + seq!['"']
    }
}

fn push_escaped(out: &mut String, s: &str)
    ensures
        final(out)@ == old(out)@ + escaped(s@),
{
    let chars = crate::text::chars_of(s);
    let mut i: usize = 0;
    let ghost start = out@;
    while i < chars.len()
        invariant
            chars@ == s@,
            i <= chars.len(),
            out@ == start + escaped(s@.subrange(0, i as int)),
        decreases chars.len() - i,
    {
        if chars[i] == '"' {
            push_char(out, '\\');
            push_char(out, '"');
        } else {
            push_char(out, chars[i]);
        }
        proof {
            let next = s@.subrange(0, i + 1);
            assert(next.drop_last() =~= s@.subrange(0, i as int));
            assert(out@ =~= start + escaped(next));
        }
        i = i + 1;
    }
    assert(s@.subrange(0, chars.len() as int) =~= s@);
}

/// The text of a linker response file for `arguments`.
pub fn response_text(arguments: &Vec<String>) -> (r: String)
    ensures
        r@ == response_lines(string_views(arguments@)),
{
    let mut out = String::new();
    let mut i: usize = 0;
    while i < arguments.len()
        invariant
            i <= arguments.len(),
            out@ == response_lines(string_views(arguments@).subrange(0, i as int)),
        decreases arguments.len() - i,
    {
        let ghost before = out@;
        if i > 0 {
            push_char(&mut out, '\n');
        }
        push_char(&mut out, '"');
        push_escaped(&mut out, arguments[i].as_str());
        push_char(&mut out, '"');
        proof {
            let next = string_views(arguments@).subrange(0, i + 1);
            assert(next.drop_last() =~= string_views(arguments@).subrange(0, i as int));
            assert(next.last() == arguments@[i as int]@);
            if i == 0 {
                assert(before == Seq::<char>::empty());
                assert(out@ =~= response_lines(next));
            } else {
                assert(out@ =~= response_lines(next));
            }
        }
        i = i + 1;
    }
    assert(string_views(arguments@).subrange(0, arguments.len() as int) =~= string_views(arguments@));
    out
}

} // verus!
