//! Decisions of the runtime library that compiled programs call: error
//! reporting inside `try` blocks, the messages of runtime failures, reading
//! command-line arguments into parameter values, evaluation requests and the
//! results of package calls.

#![verifier::loop_isolation(false)]

use crate::syntax::{is_white_space, white_space};
use crate::text::{concat2, concat3, nat_digits, owned, push_char, push_u128, str_eq};
use crate::types::{
    conversion_result, convert, display, literal, literal_result, operation, operation_result,
    shows, type_of_id, zero, Printed, Type, Value,
};
use vstd::prelude::*;

verus! {

/// The error state of a running program: how many `try` blocks are open and
/// the last error reported inside one of them.
pub struct ErrorState {
    pub depth: usize,
    pub last: Option<String>,
}

/// The error state as plain values.
pub struct ErrorModel {
    pub depth: nat,
    pub last: Option<Seq<char>>,
}

impl ErrorModel {
    /// After an error is reported: kept as the last error inside a `try`
    /// block, and no change outside.
    pub open spec fn reported(self, message: Seq<char>) -> ErrorModel {
        if self.depth == 0 { self } else { ErrorModel { depth: self.depth, last: Some(message) } }
    }

    /// After a `try` block opens; the outermost one starts with no error.
    pub open spec fn begun(self) -> ErrorModel {
        ErrorModel { depth: self.depth + 1, last: if self.depth == 0 { None } else { self.last } }
    }

    /// After a `try` block closes.
    pub open spec fn left(self) -> ErrorModel {
        ErrorModel { depth: if self.depth == 0 { 0 } else { (self.depth - 1) as nat }, last: self.last }
    }

    /// After each of `messages` is reported, in order.
    pub open spec fn reported_all(self, messages: Seq<Seq<char>>) -> ErrorModel
        decreases messages.len(),
    {
        if messages.len() == 0 {
            self
        } else {
            self.reported_all(messages.drop_last()).reported(messages.last())
        }
    }

    /// After the last error is taken out.
    pub open spec fn taken(self) -> ErrorModel {
        ErrorModel { depth: self.depth, last: None }
    }
}

impl ErrorState {
    pub open spec fn model(&self) -> ErrorModel {
        ErrorModel {
            depth: self.depth as nat,
            last: match self.last {
                Some(s) => Some(s@),
                None => None,
            },
        }
    }

    /// A program starts outside every `try` block, with no error.
    pub fn new() -> (r: ErrorState)
        ensures
            r.model() == (ErrorModel { depth: 0, last: None }),
    {
        ErrorState { depth: 0, last: None }
    }

    /// Reports an error. Inside a `try` block it becomes the last error and
    /// nothing is printed; outside, the message is handed back to be written
    /// to standard error.
    pub fn report(&mut self, message: String) -> (printed: Option<String>)
        ensures
            final(self).model() == old(self).model().reported(message@),
            old(self).depth == 0 ==> (printed matches Some(p) && p@ == message@),
            old(self).depth != 0 ==> printed is None,
    {
        if self.depth == 0 {
            Some(message)
        } else {
            self.last = Some(message);
            None
        }
    }

    /// Opens a `try` block.
    pub fn try_begin(&mut self)
        requires
            old(self).depth < usize::MAX,
        ensures
            final(self).model() == old(self).model().begun(),
    {
        if self.depth == 0 {
            self.last = None;
        }
        self.depth = self.depth + 1;
    }

    /// Closes a `try` block (never below zero open blocks).
    pub fn try_leave(&mut self)
        ensures
            final(self).model() == old(self).model().left(),
    {
        self.depth = self.depth.saturating_sub(1);
    }

    /// Takes the last error out of the state: what a `try` block hands to
    /// its program when it ends.
    pub fn take_error(&mut self) -> (r: Option<String>)
        ensures
            final(self).model() == old(self).model().taken(),
            match r {
                Some(s) => old(self).model().last == Some(s@),
                None => old(self).model().last is None,
            },
    {
        self.last.take()
    }

    /// Whether an error is waiting to be taken.
    pub fn has_error(&self) -> (r: bool)
        ensures
            r == self.model().last is Some,
    {
        self.last.is_some()
    }

    /// Whether a `try` block is open.
    pub fn is_trying(&self) -> (r: bool)
        ensures
            r == (self.model().depth != 0),
    {
        self.depth != 0
    }
}

/// An error reported inside the outermost `try` block is what the block hands
/// back when it ends; afterwards the program is outside every block and no
/// error is waiting.
pub proof fn lemma_try_hands_back_error(state: ErrorModel, message: Seq<char>)
    requires
        state.depth == 0,
    ensures
        state.begun().reported(message).left().last == Some(message),
        state.begun().reported(message).left().depth == 0,
        state.begun().reported(message).left().taken().last is None,
{
}

/// Of all errors reported inside the outermost `try` block, the last is what
/// the block hands back when it ends (none when none was reported); the
/// program is then outside every block.
pub proof fn lemma_try_hands_back_last_error(state: ErrorModel, messages: Seq<Seq<char>>)
    requires
        state.depth == 0,
    ensures
        state.begun().reported_all(messages).depth == 1,
        state.begun().reported_all(messages).last == if messages.len() == 0 {
            None
        } else {
            Some(messages.last())
        },
        state.begun().reported_all(messages).left().last == if messages.len() == 0 {
            None
        } else {
            Some(messages.last())
        },
        state.begun().reported_all(messages).left().depth == 0,
    decreases messages.len(),
{
    if messages.len() > 0 {
        lemma_try_hands_back_last_error(state, messages.drop_last());
    }
}

/// A `try` block in which nothing is reported ends with no error, whatever
/// was reported before it.
pub proof fn lemma_clean_try_has_no_error(state: ErrorModel)
    requires
        state.depth == 0,
    ensures
        state.begun().left().last is None,
        state.begun().left().depth == 0,
{
}

/// Outside every `try` block a report changes nothing: the message is
/// printed instead.
pub proof fn lemma_report_outside_try(state: ErrorModel, message: Seq<char>)
    requires
        state.depth == 0,
    ensures
        state.reported(message) == state,
{
}

/// The message of an out-of-bounds list index.
pub open spec fn list_error_text(index: usize, length: usize) -> Seq<char> {
    "Adamantium runtime error: List index "@ + nat_digits(index as nat) + " is out of bounds for length "@
        + nat_digits(length as nat)
}

/// The message reported when a list index is out of bounds.
pub fn list_error_message(index: usize, length: usize) -> (r: String)
    ensures
        r@ == list_error_text(index, length),
{
    let mut text = owned("Adamantium runtime error: List index ");
    push_u128(&mut text, index as u128);
    text.append(" is out of bounds for length ");
    push_u128(&mut text, length as u128);
    text
}

/// The message reported when a field or method is reached through `None`.
pub fn optional_error_message() -> (r: String)
    ensures
        r@ == "Adamantium runtime error: cannot access a field or method through None"@,
{
    owned("Adamantium runtime error: cannot access a field or method through None")
}

/// The line written for a `panic` or `warn` of a program at source line
/// `line`; a panic is reported as an error, a warning is only printed.
pub fn program_message(text: &str, line: usize, panic: bool) -> (r: String)
    ensures
        r@ == (if panic { "Adamantium program panicked at line "@ } else { "Adamantium program warned at line "@ })
            + nat_digits(line as nat) + ": "@ + text@,
{
    let mut message = owned(if panic {
        "Adamantium program panicked at line "
    } else {
        "Adamantium program warned at line "
    });
    push_u128(&mut message, line as u128);
    message.append(": ");
    message.append(text);
    message
}

/// An evaluation request of a compiled program: an operation on up to three
/// operands of one type, or (operation `5`) a conversion of `a` from type
/// `from`, with room for the result.
#[derive(Clone, Copy, Debug, PartialEq, Eq, Structural)]
pub struct Request {
    pub a: Value,
    pub b: Value,
    pub c: Value,
    pub output: Value,
    pub operation: u32,
    pub ty: u32,
    pub from: u32,
    pub reserved: u32,
}

/// What a request computes, when its type identifiers are valid: the
/// converted or computed value, or the message of the failure.
pub open spec fn request_result(request: Request) -> Option<Result<Value, Seq<char>>> {
    match type_of_id(request.ty) {
        None => None,
        Some(ty) => if request.operation == 5 {
            match type_of_id(request.from) {
                None => None,
                Some(from) => Some(conversion_result(request.a, from, ty)),
            }
        } else {
            Some(operation_result(request.operation, ty, request.a, request.b, request.c))
        },
    }
}

/// Runs an evaluation request. On success the result is stored in `output`
/// and the code is `0`; a failing operation gives code `2` and the message to
/// report; an invalid type identifier gives code `2` and no message.
pub fn evaluate(request: &mut Request) -> (r: (u32, Option<String>))
    ensures
        match request_result(*old(request)) {
            None => r.0 == 2 && r.1 is None && *final(request) == *old(request),
            Some(Ok(v)) => r.0 == 0 && r.1 is None && *final(request) == (Request { output: v, ..*old(request) }),
            Some(Err(e)) => r.0 == 2 && (r.1 matches Some(m) && m@ == "Adamantium runtime error: "@ + e)
                && *final(request) == *old(request),
        },
{
    let ty = match Type::from_id(request.ty) {
        Some(ty) => ty,
        None => return (2, None),
    };
    let result = if request.operation == 5 {
        let from = match Type::from_id(request.from) {
            Some(from) => from,
            None => return (2, None),
        };
        convert(request.a, from, ty)
    } else {
        operation(request.operation, ty, request.a, request.b, request.c)
    };
    match result {
        Ok(value) => {
            request.output = value;
            (0, None)
        },
        Err(error) => {
            let mut message = owned("Adamantium runtime error: ");
            message.append(error.as_str());
            (2, Some(message))
        },
    }
}

/// What `std::str::from_utf8` gives for `bytes`: the text, or the `Display`
/// text of the `Utf8Error`.
pub uninterp spec fn utf8_decoding(bytes: Seq<u8>) -> Result<Seq<char>, Seq<char>>;

/// `std::str::from_utf8` on `bytes`, the text copied into a `String`; on
/// invalid UTF-8, the `Display` text of the error. Named only.
#[verifier::external_body]
pub(crate) fn utf8_text(bytes: &[u8]) -> (r: Result<String, String>)
    ensures
        match r {
            Ok(text) => utf8_decoding(bytes@) == Ok::<Seq<char>, Seq<char>>(text@),
            Err(e) => utf8_decoding(bytes@) == Err::<Seq<char>, Seq<char>>(e@),
        },
{
    match std::str::from_utf8(bytes) {
        Ok(text) => Ok(text.to_owned()),
        Err(error) => Err(error.to_string()),
    }
}

/// `s` without its leading white space.
pub open spec fn trim_start(s: Seq<char>) -> Seq<char>
    decreases s.len(),
{
    if s.len() > 0 && is_white_space(s[0]) {
        trim_start(s.drop_first())
    } else {
        s
    }
}

/// `s` without its trailing white space.
pub open spec fn trim_end(s: Seq<char>) -> Seq<char>
    decreases s.len(),
{
    if s.len() > 0 && is_white_space(s.last()) {
        trim_end(s.drop_last())
    } else {
        s
    }
}

/// `s` without leading and trailing white space, as `str::trim` gives it.
pub open spec fn trimmed(s: Seq<char>) -> Seq<char> {
    trim_end(trim_start(s))
}

pub(crate) proof fn lemma_trim_start_skip(s: Seq<char>, i: int)
    requires
        0 <= i < s.len(),
        forall|k: int| 0 <= k <= i ==> is_white_space(#[trigger] s[k]),
    ensures
        trim_start(s) == trim_start(s.subrange(i + 1, s.len() as int)),
    decreases i,
{
    if i == 0 {
        assert(s.drop_first() =~= s.subrange(1, s.len() as int));
    } else {
        lemma_trim_start_skip(s, i - 1);
        let rest = s.subrange(i, s.len() as int);
        assert(rest.drop_first() =~= s.subrange(i + 1, s.len() as int));
        assert(rest[0] == s[i]);
    }
}

proof fn lemma_trim_end_skip(s: Seq<char>, j: int)
    requires
        0 <= j < s.len(),
        forall|k: int| j <= k < s.len() ==> is_white_space(#[trigger] s[k]),
    ensures
        trim_end(s) == trim_end(s.subrange(0, j)),
    decreases s.len() - j,
{
    if j == s.len() - 1 {
        assert(s.drop_last() =~= s.subrange(0, j));
    } else {
        lemma_trim_end_skip(s, j + 1);
        let front = s.subrange(0, j + 1);
        assert(front.drop_last() =~= s.subrange(0, j));
        assert(front.last() == s[j]);
    }
}

/// `text` without leading and trailing white space.
pub fn trim(text: &str) -> (r: String)
    ensures
        r@ == trimmed(text@),
{
    let chars = crate::text::chars_of(text);
    let n = chars.len();
    let mut start: usize = 0;
    while start < n && white_space(chars[start])
        invariant
            chars@ == text@,
            n == chars.len(),
            start <= n,
            forall|k: int| 0 <= k < start ==> is_white_space(#[trigger] chars@[k]),
        decreases n - start,
    {
        start = start + 1;
    }
    proof {
        if start > 0 {
            lemma_trim_start_skip(text@, start - 1);
        } else {
            assert(text@.subrange(0, n as int) =~= text@);
        }
        let rest = text@.subrange(start as int, n as int);
        if rest.len() > 0 {
            assert(rest[0] == text@[start as int]);
        }
        assert(trim_start(rest) == rest);
    }
    let ghost rest = text@.subrange(start as int, n as int);
    let mut end: usize = n;
    while end > start && white_space(chars[end - 1])
        invariant
            chars@ == text@,
            n == chars.len(),
            start <= end <= n,
            rest == text@.subrange(start as int, n as int),
            forall|k: int| end <= k < n ==> is_white_space(#[trigger] chars@[k]),
        decreases end,
    {
        end = end - 1;
    }
    proof {
        let kept = text@.subrange(start as int, end as int);
        if end < n {
            assert forall|k: int| (end - start) as int <= k < rest.len() implies is_white_space(#[trigger] rest[k]) by {
                assert(rest[k] == chars@[k + start]);
            }
            lemma_trim_end_skip(rest, (end - start) as int);
            assert(rest.subrange(0, (end - start) as int) =~= kept);
        } else {
            assert(rest =~= kept);
        }
        if kept.len() > 0 {
            assert(kept.last() == chars@[end - 1]);
        }
        assert(trim_end(kept) == kept);
    }
    let mut out = String::new();
    let mut i = start;
    while i < end
        invariant
            chars@ == text@,
            start <= i <= end <= n,
            n == chars.len(),
            out@ == text@.subrange(start as int, i as int),
        decreases end - i,
    {
        push_char(&mut out, chars[i]);
        assert(out@ =~= text@.subrange(start as int, (i + 1) as int));
        i = i + 1;
    }
    out
}

/// What a package call hands back: the raw output of a `string` result, or
/// a value.
#[derive(Debug, PartialEq, Eq)]
pub enum PackageOutput {
    Bytes(Vec<u8>),
    Scalar(Value),
}

/// Reads what a package printed as its result of type `ty`: nothing for
/// `None`, the raw output for `string`, otherwise the trimmed UTF-8 text read
/// as a boolean or a numeric literal.
pub fn package_result(bytes: &[u8], ty: Type) -> (r: Result<PackageOutput, String>)
    ensures
        ty == Type::NoneType ==> (r matches Ok(PackageOutput::Scalar(v)) && v == zero()),
        ty == Type::String ==> (r matches Ok(PackageOutput::Bytes(b)) && b@ == bytes@),
        ty != Type::NoneType && ty != Type::String ==> match utf8_decoding(bytes@) {
            Err(e) => r matches Err(m) && m@ == "package returned non-UTF-8 output: "@ + e,
            Ok(text) => if ty == Type::Bool {
                if trimmed(text) == "true"@ {
                    r matches Ok(PackageOutput::Scalar(v)) && v == (Value { lo: 1, hi: 0 })
                } else if trimmed(text) == "false"@ {
                    r matches Ok(PackageOutput::Scalar(v)) && v == zero()
                } else {
                    r matches Err(m) && m@ == "package returned invalid bool '"@ + trimmed(text) + "'"@
                }
            } else {
                match literal_result(trimmed(text), ty) {
                    Ok(v) => r matches Ok(PackageOutput::Scalar(w)) && w == v,
                    Err(e) => r matches Err(m) && m@ == e,
                }
            },
        },
{
    if ty == Type::NoneType {
        return Ok(PackageOutput::Scalar(Value { lo: 0, hi: 0 }));
    }
    if ty == Type::String {
        let mut copy: Vec<u8> = Vec::new();
        let mut i: usize = 0;
        while i < bytes.len()
            invariant
                i <= bytes.len(),
                copy@ == bytes@.subrange(0, i as int),
            decreases bytes.len() - i,
        {
            copy.push(bytes[i]);
            assert(copy@ =~= bytes@.subrange(0, (i + 1) as int));
            i = i + 1;
        }
        assert(copy@ =~= bytes@);
        return Ok(PackageOutput::Bytes(copy));
    }
    let text = match utf8_text(bytes) {
        Ok(text) => text,
        Err(error) => return Err(concat2("package returned non-UTF-8 output: ", error.as_str())),
    };
    let text = trim(text.as_str());
    if ty == Type::Bool {
        proof {
            reveal_strlit("true");
            reveal_strlit("false");
        }
        if str_eq(text.as_str(), "true") {
            return Ok(PackageOutput::Scalar(Value { lo: 1, hi: 0 }));
        }
        if str_eq(text.as_str(), "false") {
            return Ok(PackageOutput::Scalar(Value { lo: 0, hi: 0 }));
        }
        return Err(concat3("package returned invalid bool '", text.as_str(), "'"));
    }
    match literal(text.as_str(), ty) {
        Ok(value) => Ok(PackageOutput::Scalar(value)),
        Err(error) => Err(error),
    }
}

/// A parameter of a program's `main`: its name, the identifier of its type,
/// and whether it may be left out (non-zero).
pub struct ArgumentSpec {
    pub name: String,
    pub ty: u32,
    pub optional: u32,
}

/// The type that a parameter is declared with.
pub open spec fn declared_type(spec: ArgumentSpec) -> Type {
    type_of_id(spec.ty).unwrap()
}

/// The type that the command-line text of a parameter is read as: the inner
/// type of an optional parameter.
pub open spec fn inner_type(spec: ArgumentSpec) -> Type {
    match declared_type(spec) {
        Type::Optional(inner) => type_of_id(inner).unwrap(),
        declared => declared,
    }
}

/// A parameter description that a compiled program can hand over: its type
/// identifiers are valid, and an optional parameter holds its value in place.
pub open spec fn spec_well_formed(spec: ArgumentSpec) -> bool {
    &&& type_of_id(spec.ty) is Some
    &&& declared_type(spec) is Optional ==> {
        let inner = type_of_id(declared_type(spec)->Optional_0);
        &&& inner is Some
        &&& !inner.unwrap().is_wide_optional_value()
        &&& !(inner.unwrap() is Optional)
    }
}

/// A parameter value read from the command line: a value, or (for a
/// `string` parameter) the text of the argument at that position.
#[derive(Clone, Copy, Debug, PartialEq, Eq, Structural)]
pub enum ArgumentValue {
    Scalar(Value),
    Text(usize),
}

/// Whether `s` starts with `--`.
pub open spec fn has_dashes(s: Seq<char>) -> bool {
    s.len() >= 2 && s[0] == '-' && s[1] == '-'
}

/// The first parameter, from position `k` on, named `name`.
pub open spec fn first_match(specs: Seq<ArgumentSpec>, name: Seq<char>, k: int) -> Option<int>
    decreases specs.len() - k,
{
    if k < 0 || k >= specs.len() {
        None
    } else if specs[k].name@ == name {
        Some(k)
    } else {
        first_match(specs, name, k + 1)
    }
}

proof fn lemma_first_match(specs: Seq<ArgumentSpec>, name: Seq<char>, k: int)
    requires
        first_match(specs, name, k) is Some,
    ensures
        k <= first_match(specs, name, k).unwrap() < specs.len(),
        0 <= first_match(specs, name, k).unwrap(),
        specs[first_match(specs, name, k).unwrap()].name@ == name,
    decreases specs.len() - k,
{
    if k >= 0 && k < specs.len() && specs[k].name@ != name {
        lemma_first_match(specs, name, k + 1);
    }
}

/// The value of parameter `spec` given as `text` at argument position
/// `position`, or the message of the error that stops the program.
pub open spec fn slot_value(spec: ArgumentSpec, text: Seq<char>, position: int) -> Result<ArgumentValue, Seq<char>> {
    let inner = inner_type(spec);
    let read = if inner == Type::String {
        Ok(ArgumentValue::Text(position as usize))
    } else if inner == Type::Bool {
        if text == "true"@ {
            Ok(ArgumentValue::Scalar(Value { lo: 1, hi: 0 }))
        } else if text == "false"@ {
            Ok(ArgumentValue::Scalar(zero()))
        } else {
            Err("Adamantium argument error: '--"@ + spec.name@ + "' expects bool, found '"@ + text + "'"@)
        }
    } else {
        match literal_result(text, inner) {
            Ok(v) => Ok(ArgumentValue::Scalar(v)),
            Err(e) => Err("Adamantium argument error: invalid value '"@ + text + "' for '--"@ + spec.name@
                + "' ("@ + inner.spec_text() + "): "@ + e),
        }
    };
    match read {
        Ok(ArgumentValue::Scalar(v)) => if declared_type(spec) == inner {
            Ok(ArgumentValue::Scalar(v))
        } else {
            Ok(ArgumentValue::Scalar(Value { lo: v.lo, hi: 1 }))
        },
        other => other,
    }
}

/// The state of reading arguments: the values so far, which parameters were
/// given, and the lines written to standard error.
pub struct ScanState {
    pub values: Seq<ArgumentValue>,
    pub seen: Seq<bool>,
    pub messages: Seq<Seq<char>>,
}

/// The warning for an argument that names no parameter.
pub open spec fn unknown_text(argument: Seq<char>) -> Seq<char> {
    "Adamantium argument warning: unknown argument '"@ + argument + "'"@
}

/// The warning for a parameter given without a value.
pub open spec fn missing_value_text(name: Seq<char>) -> Seq<char> {
    "Adamantium argument warning: missing value for '--"@ + name + "'"@
}

/// The warning for a required parameter that was not given.
pub open spec fn missing_required_text(name: Seq<char>) -> Seq<char> {
    "Adamantium argument warning: missing required argument '--"@ + name + "'"@
}

/// Reading the arguments from position `index` on. `argv` holds the
/// arguments as text; `utf8` says which of them are valid UTF-8. The second
/// component is the status when reading stops early.
pub open spec fn scan(argv: Seq<Seq<char>>, utf8: Seq<bool>, specs: Seq<ArgumentSpec>, index: int, state: ScanState) -> (ScanState, Option<u32>)
    decreases argv.len() - index,
{
    if index < 0 || index >= argv.len() {
        (state, None)
    } else {
        let argument = argv[index];
        let warn = |m: Seq<char>| ScanState { messages: state.messages.push(m), ..state };
        if !has_dashes(argument) {
            scan(argv, utf8, specs, index + 1, warn(unknown_text(argument)))
        } else {
            let name = argument.subrange(2, argument.len() as int);
            match first_match(specs, name, 0) {
                None => {
                    let next = if index + 1 < argv.len() && !has_dashes(argv[index + 1]) { index + 2 } else { index + 1 };
                    scan(argv, utf8, specs, next, warn(unknown_text(argument)))
                },
                Some(slot) => if index + 1 >= argv.len() || has_dashes(argv[index + 1]) {
                    scan(argv, utf8, specs, index + 1, warn(missing_value_text(name)))
                } else if !utf8[index + 1] {
                    (state, Some(2))
                } else {
                    match slot_value(specs[slot], argv[index + 1], index + 1) {
                        Err(m) => (warn(m), Some(2)),
                        Ok(v) => scan(argv, utf8, specs, index + 2, ScanState {
                            values: state.values.update(slot, v),
                            seen: state.seen.update(slot, true),
                            messages: state.messages,
                        }),
                    }
                },
            }
        }
    }
}

/// The warnings for required parameters from position `k` on that were not
/// given.
pub open spec fn missing_messages(specs: Seq<ArgumentSpec>, seen: Seq<bool>, k: int) -> Seq<Seq<char>>
    decreases specs.len() - k,
{
    if k < 0 || k >= specs.len() {
        seq![]
    } else {
        (if !seen[k] && specs[k].optional == 0 { seq![missing_required_text(specs[k].name@)] } else { seq![] })
            + missing_messages(specs, seen, k + 1)
    }
}

/// What reading the command line gives: the parameter values (zero where not
/// given), the lines for standard error, and the status (`0`, or `2` when the
/// program must stop).
pub open spec fn parsed_arguments(argv: Seq<Seq<char>>, utf8: Seq<bool>, specs: Seq<ArgumentSpec>) -> (Seq<ArgumentValue>, Seq<Seq<char>>, u32) {
    let start = ScanState {
        values: Seq::new(specs.len(), |i: int| ArgumentValue::Scalar(zero())),
        seen: Seq::new(specs.len(), |i: int| false),
        messages: seq![],
    };
    let (state, early) = scan(argv, utf8, specs, 1, start);
    match early {
        Some(code) => (state.values, state.messages, code),
        None => (state.values, state.messages + missing_messages(specs, state.seen, 0), 0),
    }
}

/// The result of reading the command line.
pub struct ParsedArguments {
    pub values: Vec<ArgumentValue>,
    pub messages: Vec<String>,
    pub status: u32,
}

fn dashes(s: &str) -> (r: bool)
    ensures
        r == has_dashes(s@),
{
    let n = s.unicode_len();
    n >= 2 && s.get_char(0) == '-' && s.get_char(1) == '-'
}

fn after_dashes(s: &str) -> (r: String)
    requires
        has_dashes(s@),
    ensures
        r@ == s@.subrange(2, s@.len() as int),
{
    let chars = crate::text::chars_of(s);
    let mut out = String::new();
    let mut i: usize = 2;
    while i < chars.len()
        invariant
            chars@ == s@,
            2 <= i <= chars.len(),
            out@ == s@.subrange(2, i as int),
        decreases chars.len() - i,
    {
        push_char(&mut out, chars[i]);
        assert(out@ =~= s@.subrange(2, (i + 1) as int));
        i = i + 1;
    }
    out
}

fn find_argument(specs: &Vec<ArgumentSpec>, name: &str) -> (r: Option<usize>)
    ensures
        match r {
            Some(k) => first_match(specs@, name@, 0) == Some(k as int),
            None => first_match(specs@, name@, 0) is None,
        },
{
    let mut k: usize = 0;
    while k < specs.len()
        invariant
            k <= specs.len(),
            first_match(specs@, name@, 0) == first_match(specs@, name@, k as int),
        decreases specs.len() - k,
    {
        if str_eq(specs[k].name.as_str(), name) {
            return Some(k);
        }
        k = k + 1;
    }
    None
}

fn read_slot(spec: &ArgumentSpec, text: &str, position: usize) -> (r: Result<ArgumentValue, String>)
    requires
        spec_well_formed(*spec),
    ensures
        match r {
            Ok(v) => slot_value(*spec, text@, position as int) == Ok::<ArgumentValue, Seq<char>>(v),
            Err(m) => slot_value(*spec, text@, position as int) == Err::<ArgumentValue, Seq<char>>(m@),
        },
{
    let declared = match Type::from_id(spec.ty) {
        Some(t) => t,
        None => {
            assert(false);
            return Err(String::new());
        },
    };
    let inner = match declared {
        Type::Optional(id) => match Type::from_id(id) {
            Some(t) => t,
            None => {
                assert(false);
                return Err(String::new());
            },
        },
        _ => declared,
    };
    assert(inner == inner_type(*spec));
    let value = if inner == Type::String {
        return Ok(ArgumentValue::Text(position));
    } else if inner == Type::Bool {
        proof {
            reveal_strlit("true");
            reveal_strlit("false");
        }
        if str_eq(text, "true") {
            Value { lo: 1, hi: 0 }
        } else if str_eq(text, "false") {
            Value { lo: 0, hi: 0 }
        } else {
            let mut m = owned("Adamantium argument error: '--");
            m.append(spec.name.as_str());
            m.append("' expects bool, found '");
            m.append(text);
            m.append("'");
            return Err(m);
        }
    } else {
        match literal(text, inner) {
            Ok(v) => v,
            Err(error) => {
                let shown = inner.text();
                let mut m = owned("Adamantium argument error: invalid value '");
                m.append(text);
                m.append("' for '--");
                m.append(spec.name.as_str());
                m.append("' (");
                m.append(shown.as_str());
                m.append("): ");
                m.append(error.as_str());
                return Err(m);
            },
        }
    };
    if declared == inner {
        Ok(ArgumentValue::Scalar(value))
    } else {
        match convert(value, inner, declared) {
            Ok(v) => Ok(ArgumentValue::Scalar(v)),
            Err(_) => {
                assert(false);
                Err(String::new())
            },
        }
    }
}

/// Reads the command line of a compiled program into the values of its
/// `main` parameters. `argv` holds the arguments as text, the program name
/// first; `utf8[i]` says whether argument `i` was valid UTF-8. Arguments
/// come as `--name value`; unknown arguments and missing values only warn,
/// a value of the wrong form stops the program with status `2`.
pub fn parse_arguments(argv: &Vec<String>, utf8: &Vec<bool>, specs: &Vec<ArgumentSpec>) -> (r: ParsedArguments)
    requires
        utf8.len() == argv.len(),
        forall|i: int| 0 <= i < specs.len() ==> spec_well_formed(#[trigger] specs[i]),
    ensures
        parsed_arguments(crate::text::string_views(argv@), utf8@, specs@)
            == (r.values@, crate::text::string_views(r.messages@), r.status),
{
    let ghost views = crate::text::string_views(argv@);
    let n = specs.len();
    let mut values: Vec<ArgumentValue> = Vec::new();
    let mut seen: Vec<bool> = Vec::new();
    let mut k: usize = 0;
    while k < n
        invariant
            n == specs.len(),
            k <= n,
            values@ == Seq::new(k as nat, |i: int| ArgumentValue::Scalar(zero())),
            seen@ == Seq::new(k as nat, |i: int| false),
        decreases n - k,
    {
        values.push(ArgumentValue::Scalar(Value { lo: 0, hi: 0 }));
        seen.push(false);
        k = k + 1;
        assert(values@ =~= Seq::new(k as nat, |i: int| ArgumentValue::Scalar(zero())));
        assert(seen@ =~= Seq::new(k as nat, |i: int| false));
    }
    let mut messages: Vec<String> = Vec::new();
    let ghost start = ScanState { values: values@, seen: seen@, messages: seq![] };
    let ghost goal = scan(views, utf8@, specs@, 1, start);
    let mut index: usize = 1;
    assert(crate::text::string_views(messages@) =~= seq![]);
    while index < argv.len()
        invariant
            views == crate::text::string_views(argv@),
            utf8.len() == argv.len(),
            n == specs.len(),
            values.len() == n,
            seen.len() == n,
            1 <= index,
            forall|i: int| 0 <= i < specs.len() ==> spec_well_formed(#[trigger] specs[i]),
            scan(views, utf8@, specs@, index as int, ScanState {
                values: values@,
                seen: seen@,
                messages: crate::text::string_views(messages@),
            }) == goal,
        decreases argv.len() - index,
    {
        let ghost state = ScanState { values: values@, seen: seen@, messages: crate::text::string_views(messages@) };
        let argument = &argv[index];
        assert(views[index as int] == argument@);
        if !dashes(argument.as_str()) {
            messages.push(concat3("Adamantium argument warning: unknown argument '", argument.as_str(), "'"));
            assert(crate::text::string_views(messages@) =~= state.messages.push(unknown_text(argument@)));
            index = index + 1;
            continue;
        }
        let name = after_dashes(argument.as_str());
        let found = find_argument(specs, name.as_str());
        match found {
            None => {
                messages.push(concat3("Adamantium argument warning: unknown argument '", argument.as_str(), "'"));
                assert(crate::text::string_views(messages@) =~= state.messages.push(unknown_text(argument@)));
                index = index + 1;
                if index < argv.len() {
                    assert(views[index as int] == argv@[index as int]@);
                    if !dashes(argv[index].as_str()) {
                        index = index + 1;
                    }
                }
            },
            Some(slot) => {
                if index + 1 >= argv.len() || dashes(argv[index + 1].as_str()) {
                    proof {
                        if index + 1 < argv.len() {
                            assert(views[index + 1] == argv@[index + 1]@);
                        }
                    }
                    messages.push(concat3("Adamantium argument warning: missing value for '--", name.as_str(), "'"));
                    assert(crate::text::string_views(messages@) =~= state.messages.push(missing_value_text(name@)));
                    index = index + 1;
                    continue;
                }
                assert(views[index + 1] == argv@[index + 1]@);
                if !utf8[index + 1] {
                    return ParsedArguments { values, messages, status: 2 };
                }
                proof {
                    lemma_first_match(specs@, name@, 0);
                }
                assert(spec_well_formed(specs@[slot as int]));
                match read_slot(&specs[slot], argv[index + 1].as_str(), index + 1) {
                    Err(message) => {
                        messages.push(message);
                        assert(crate::text::string_views(messages@) =~= state.messages.push(slot_value(specs@[slot as int], views[index + 1], index + 1)->Err_0));
                        return ParsedArguments { values, messages, status: 2 };
                    },
                    Ok(value) => {
                        values.set(slot, value);
                        seen.set(slot, true);
                        index = index + 2;
                    },
                }
            },
        }
    }
    let ghost finished = ScanState { values: values@, seen: seen@, messages: crate::text::string_views(messages@) };
    assert(goal == (finished, None::<u32>));
    let mut k: usize = 0;
    let ghost before = crate::text::string_views(messages@);
    while k < n
        invariant
            n == specs.len(),
            seen.len() == n,
            k <= n,
            before + missing_messages(specs@, seen@, 0)
                == crate::text::string_views(messages@) + missing_messages(specs@, seen@, k as int),
        decreases n - k,
    {
        let ghost current = crate::text::string_views(messages@);
        if !seen[k] && specs[k].optional == 0 {
            messages.push(concat3("Adamantium argument warning: missing required argument '--", specs[k].name.as_str(), "'"));
            assert(crate::text::string_views(messages@) =~= current.push(missing_required_text(specs@[k as int].name@)));
            assert(current + missing_messages(specs@, seen@, k as int) =~= crate::text::string_views(messages@)
                + missing_messages(specs@, seen@, k + 1));
        } else {
            assert(missing_messages(specs@, seen@, k as int) =~= missing_messages(specs@, seen@, k + 1));
        }
        k = k + 1;
    }
    assert(missing_messages(specs@, seen@, n as int) =~= seq![]);
    assert(crate::text::string_views(messages@) + seq![] =~= crate::text::string_views(messages@));
    ParsedArguments { values, messages, status: 0 }
}

/// A package call of a compiled program: the path of the WebAssembly
/// package, the command, up to eight arguments with their type identifiers,
/// the result type, the filesystem permission (`0` none, `1` read, `2`
/// write), and room for the result.
pub struct PackageCall {
    pub wasm: Value,
    pub command: Value,
    pub arguments: [Value; 8],
    pub types: [u32; 8],
    pub count: u32,
    pub result_type: u32,
    pub filesystem: u32,
    pub reserved: u32,
    pub output: Value,
}

/// What is wrong with the shape of a package call, if anything: more than
/// eight arguments, or an unknown filesystem permission.
pub fn package_call_problem(call: &PackageCall) -> (r: Option<String>)
    ensures
        call.count > 8 ==> (r matches Some(m) && m@ == "package call has too many arguments"@),
        call.count <= 8 && call.filesystem > 2 ==> (r matches Some(m)
            && m@ == "package call has an invalid filesystem permission"@),
        call.count <= 8 && call.filesystem <= 2 ==> r is None,
{
    if call.count > 8 {
        return Some(owned("package call has too many arguments"));
    }
    if call.filesystem > 2 {
        return Some(owned("package call has an invalid filesystem permission"));
    }
    None
}

/// How a package argument is passed on the package's command line: `Ok(None)`
/// for a `string`, whose text is passed as it is; otherwise how the value is
/// printed; an unknown type identifier or an unprintable value is an error.
pub fn package_argument(value: Value, type_id: u32) -> (r: Result<Option<Printed>, String>)
    ensures
        match type_of_id(type_id) {
            None => r matches Err(m) && m@ == "invalid package argument type"@,
            Some(ty) => if ty == Type::String {
                r matches Ok(None)
            } else {
                match r {
                    Ok(Some(p)) => shows(value, ty, Ok(p)),
                    Ok(None) => false,
                    Err(m) => shows(value, ty, Err(m)),
                }
            },
        },
{
    let ty = match Type::from_id(type_id) {
        Some(ty) => ty,
        None => return Err(owned("invalid package argument type")),
    };
    if ty == Type::String {
        return Ok(None);
    }
    match display(value, ty) {
        Ok(p) => Ok(Some(p)),
        Err(e) => Err(e),
    }
}

/// The type that a package call's result is read as.
pub fn package_result_type(call: &PackageCall) -> (r: Result<Type, String>)
    ensures
        match type_of_id(call.result_type) {
            Some(ty) => r == Ok::<Type, String>(ty),
            None => r matches Err(m) && m@ == "invalid package result type"@,
        },
{
    match Type::from_id(call.result_type) {
        Some(ty) => Ok(ty),
        None => Err(owned("invalid package result type")),
    }
}

/// The message reported when a package call fails.
pub fn package_error_message(error: &str) -> (r: String)
    ensures
        r@ == "Adamantium package error: "@ + trimmed(error@),
{
    let trimmed_error = trim(error);
    concat2("Adamantium package error: ", trimmed_error.as_str())
}

} // verus!
