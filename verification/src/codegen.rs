//! The code generator: a typed program to x86-64 NASM assembly that calls
//! the runtime for arithmetic, conversions, printing, objects and errors.
//! Every variable slot and temporary is 16 bytes on the stack frame.

#![verifier::loop_isolation(false)]

use crate::syntax::{Comparison, LogicalOperator, Operator};
use crate::text::{concat2, concat3, grows, i128_text, lemma_grows_split, nat_digits, owned, push_char, push_u128, str_eq};
use crate::typed::{ClassInfo, Expression, Function, Instruction, Kind, Program};
use crate::types::{Type, Value};
use vstd::prelude::*;

verus! {

/// The stack operand of the 16-byte slot `slot` at byte `offset`:
/// `[rbp - ((slot + 1) * 16 - offset)]`.
pub fn memory(slot: usize, offset: usize) -> (r: String)
    ensures
        r@ == "[rbp - "@ + crate::text::int_digits((slot + 1) * 16 - offset) + "]"@,
{
    let distance: i128 = (slot as i128 + 1) * 16 - offset as i128;
    let mut text = owned("[rbp - ");
    text.append(i128_text(distance).as_str());
    text.append("]");
    text
}

/// The decimal text of a number.
fn number(n: u128) -> (r: String)
    ensures
        r@ == crate::text::nat_digits(n as nat),
{
    let mut text = String::new();
    push_u128(&mut text, n);
    text
}

/// The assembly generator's state: the text so far, the string constants,
/// the slot and label counters, and the labels that `break`, `continue` and
/// errors jump to.
struct Generator {
    text: String,
    data: Vec<Vec<u8>>,
    next_slot: usize,
    max_slot: usize,
    class_sizes: Vec<usize>,
    classes: Vec<ClassInfo>,
    next_label: usize,
    loop_stack: Vec<(String, String)>,
    error_targets: Vec<String>,
}

/// The operand text of slot `slot` at byte `offset` (see `memory`).
pub open spec fn memory_text(slot: int, offset: int) -> Seq<char> {
    "[rbp - "@ + crate::text::int_digits((slot + 1) * 16 - offset) + "]"@
}

/// The instructions that store `rax:rdx` into a slot.
pub open spec fn store_text(slot: int) -> Seq<char> {
    "    mov "@ + memory_text(slot, 0) + ", rax\n    mov "@ + memory_text(slot, 8) + ", rdx"@
}

/// The instructions that load a slot into `rax:rdx`.
pub open spec fn load_text(slot: int) -> Seq<char> {
    "    mov rax, "@ + memory_text(slot, 0) + "\n    mov rdx, "@ + memory_text(slot, 8)
}

/// `after` is `before` with `text` appended to the assembly and nothing else
/// changed.
spec fn emitted(before: Generator, after: Generator, text: Seq<char>) -> bool {
    &&& after.text@ == before.text@ + text
    &&& after.data == before.data
    &&& after.next_slot == before.next_slot
    &&& after.max_slot == before.max_slot
    &&& after.class_sizes == before.class_sizes
    &&& after.classes == before.classes
    &&& after.next_label == before.next_label
    &&& after.loop_stack == before.loop_stack
    &&& after.error_targets == before.error_targets
}

/// The line `<instruction><16 * count>` that makes room for `count` stack
/// arguments (or gives it back); nothing when there are none.
#[verifier::opaque]
pub open spec fn stack_change(instruction: Seq<char>, count: nat) -> Seq<char> {
    if count == 0 {
        seq![]
    } else {
        instruction + nat_digits(count * 16) + "\n"@
    }
}

/// The instructions that copy the saved arguments `slots[0..count]` into
/// the outgoing stack area, 16 bytes each.
#[verifier::opaque]
pub open spec fn argument_copies(slots: Seq<usize>, count: int) -> Seq<char>
    decreases count,
{
    if count <= 0 {
        seq![]
    } else {
        argument_copies(slots, count - 1) + load_text(slots[count - 1] as int) + "\n"@
            + "    mov [rsp + "@ + nat_digits(((count - 1) * 16) as nat) + "], rax\n    mov [rsp + "@
            + nat_digits(((count - 1) * 16 + 8) as nat) + "], rdx"@ + "\n"@
    }
}

/// The instructions that store the saved `values[0..count]` into the
/// object whose address is in slot `object`, 16 bytes each.
#[verifier::opaque]
pub open spec fn field_stores(object: int, values: Seq<usize>, count: int) -> Seq<char>
    decreases count,
{
    if count <= 0 {
        seq![]
    } else {
        field_stores(object, values, count - 1) + load_text(object) + "\n"@ + "    mov r11, rax"@
            + "\n"@ + load_text(values[count - 1] as int) + "\n"@ + "    mov [r11 + "@ + nat_digits(
            ((count - 1) * 16) as nat,
        ) + "], rax\n    mov [r11 + "@ + nat_digits(((count - 1) * 16 + 8) as nat) + "], rdx"@
            + "\n"@
    }
}

/// The slot of the 80-byte request that `evaluate` reserves when `next`
/// slots are taken.
pub open spec fn request_slot(next: usize) -> int {
    if next + 5 <= usize::MAX {
        next + 4
    } else {
        usize::MAX - 1
    }
}

/// The instructions that clear the first `words` words of the request.
#[verifier::opaque]
pub open spec fn request_zeroing(request: int, words: int) -> Seq<char>
    decreases words,
{
    if words <= 0 {
        seq![]
    } else {
        request_zeroing(request, words - 1) + "    mov qword "@ + memory_text(request, (words - 1) * 8)
            + ", 0"@ + "\n"@
    }
}

/// The instructions that copy the operands `0..count` into the request.
#[verifier::opaque]
pub open spec fn operand_moves(request: int, operands: Seq<usize>, count: int) -> Seq<char>
    decreases count,
{
    if count <= 0 {
        seq![]
    } else {
        operand_moves(request, operands, count - 1) + load_text(operands[count - 1] as int) + "\n"@
            + "    mov "@ + memory_text(request, (count - 1) * 16) + ", rax\n    mov "@ + memory_text(
            request,
            (count - 1) * 16 + 8,
        ) + ", rdx"@ + "\n"@
    }
}

/// The instructions that fill in the operation and types, call
/// `ad_evaluate`, jump to `error` on failure and load the output.
pub open spec fn evaluate_call_text(request: int, operation: u32, ty: Type, from: Type, error: Seq<char>) -> Seq<char> {
    "    mov dword "@ + memory_text(request, 64) + ", "@ + nat_digits(operation as nat)
        + "\n    mov dword "@ + memory_text(request, 68) + ", "@ + nat_digits(ty.spec_id() as nat)
        + "\n    mov dword "@ + memory_text(request, 72) + ", "@ + nat_digits(from.spec_id() as nat)
        + "\n    lea rcx, "@ + memory_text(request, 0) + "\n    call ad_evaluate\n    test eax, eax\n    jnz "@
        + error + "\n    mov rax, "@ + memory_text(request, 48) + "\n    mov rdx, "@ + memory_text(request, 56)
        + "\n"@
}

/// `after` is `before` with code added (see `context_kept`) inside one
/// function, whose frame has not shrunk.
spec fn kept(before: Generator, after: Generator) -> bool {
    &&& context_kept(before, after)
    &&& before.max_slot <= after.max_slot
}

/// What code generation keeps outside one function: the text only grows,
/// and the error targets, loop labels and class layouts are as they were.
spec fn context_kept(before: Generator, after: Generator) -> bool {
    &&& grows(before.text@, after.text@)
    &&& after.error_targets@ == before.error_targets@
    &&& after.loop_stack@ == before.loop_stack@
    &&& after.classes@ == before.classes@
    &&& after.class_sizes@ == before.class_sizes@
}

broadcast use crate::text::group_grows;

/// The conditional jump that skips the right operand of `&&` (when the left
/// one is false) or of `||` (when it is true).
pub open spec fn logical_jump(op: LogicalOperator) -> Seq<char> {
    match op {
        LogicalOperator::And => "    jz "@,
        LogicalOperator::Or => "    jnz "@,
    }
}

/// The value that a skipped `&&` (false) or `||` (true) gives.
pub open spec fn logical_default(op: LogicalOperator) -> Seq<char> {
    match op {
        LogicalOperator::And => "0"@,
        LogicalOperator::Or => "1"@,
    }
}

/// Short-circuit code: the left operand's value is tested and, where it
/// decides, the right operand is jumped over to `skip`, which loads the
/// deciding value; otherwise the right operand's code runs and jumps to `end`.
pub open spec fn logical_code(text: Seq<char>, op: LogicalOperator, skip: Seq<char>, end: Seq<char>) -> bool {
    exists|head: Seq<char>, middle: Seq<char>|
        text == head + ("    test rax, rax"@ + "\n"@ + (logical_jump(op) + skip + "\n"@)) + middle + (
        "    jmp "@ + end + "\n"@ + skip + ":\n    mov eax, "@ + logical_default(op)
            + "\n    xor edx, edx\n"@ + end + ":"@ + "\n"@)
}

/// The name of label number `n` made with `prefix`.
pub open spec fn label_name(prefix: Seq<char>, n: nat) -> Seq<char> {
    "ad_"@ + prefix + "_"@ + nat_digits(n)
}

/// The bytes of each string constant.
pub open spec fn data_views(data: Seq<Vec<u8>>) -> Seq<Seq<u8>> {
    data.map_values(|bytes: Vec<u8>| bytes@)
}

/// All but the last string constant.
spec fn old_data(data: Seq<Vec<u8>>) -> Seq<Vec<u8>> {
    data.drop_last()
}

/// Adding a string constant adds its bytes.
proof fn lemma_data_views_push(before: Seq<Vec<u8>>, after: Seq<Vec<u8>>)
    requires
        after.len() == before.len() + 1,
        after.drop_last() == before,
    ensures
        data_views(after) == data_views(before).push(after.last()@),
{
    assert(data_views(after) =~= data_views(before).push(after.last()@));
}

/// Whether one of the first `n` fields is public.
pub open spec fn any_public(fields: Seq<crate::typed::ClassFieldInfo>, n: int) -> bool {
    exists|i: int| 0 <= i < n && (#[trigger] fields[i]).public
}

/// The labels printed for the public fields among the first `n`: `name=`,
/// after `, ` from the second one on.
pub open spec fn field_labels(fields: Seq<crate::typed::ClassFieldInfo>, n: int) -> Seq<Seq<u8>>
    decreases n,
{
    if n <= 0 {
        seq![]
    } else {
        let field = fields[n - 1];
        let before = field_labels(fields, n - 1);
        if field.public {
            before + (if any_public(fields, n - 1) {
                seq![vstd::utf8::encode_utf8(", "@)]
            } else {
                seq![]
            }) + seq![vstd::utf8::encode_utf8(field.name@ + "="@)]
        } else {
            before
        }
    }
}

/// The string constants printed for an object of the class: `Name(`, the
/// labels of its public fields, and `)`.
pub open spec fn class_labels(class: crate::typed::ClassInfo) -> Seq<Seq<u8>> {
    seq![vstd::utf8::encode_utf8(class.name@ + "("@)] + field_labels(class.fields@, class.fields@.len() as int)
        + seq![vstd::utf8::encode_utf8(")"@)]
}

/// Pieces of code one after another.
pub open spec fn joined(codes: Seq<Seq<char>>) -> Seq<char>
    decreases codes.len(),
{
    if codes.len() == 0 {
        seq![]
    } else {
        joined(codes.drop_last()) + codes.last()
    }
}

/// What the code of one instruction is known to be, in a function named
/// `function` inside the loops `loops` (innermost last): nothing for a no-op;
/// an assignment ends by storing into its slot; `exit` ends the process;
/// `return` jumps to the function's return; `break` and `continue` jump to
/// the end and to the start of the innermost loop (outside a loop they emit
/// nothing).
pub open spec fn instruction_code(
    instruction: Instruction,
    loops: Seq<(String, String)>,
    function: Seq<char>,
    code: Seq<char>,
) -> bool {
    match instruction {
        Instruction::Noop => code == Seq::<char>::empty(),
        Instruction::Assign(slot, _) => exists|head: Seq<char>| code == head + (store_text(slot as int) + "\n"@),
        Instruction::Exit => code == "    xor ecx, ecx\n    call ExitProcess"@ + "\n"@,
        Instruction::Return => code == "    jmp ad_return_"@ + function + "\n"@,
        Instruction::Break => code == if loops.len() > 0 {
            "    jmp "@ + loops.last().1@ + "\n"@
        } else {
            Seq::<char>::empty()
        },
        Instruction::Continue => code == if loops.len() > 0 {
            "    jmp "@ + loops.last().0@ + "\n"@
        } else {
            Seq::<char>::empty()
        },
        _ => true,
    }
}

/// Whether `codes` are the codes of the instructions, one each (see
/// `instruction_code`).
pub open spec fn instructions_code(
    instructions: Seq<Instruction>,
    loops: Seq<(String, String)>,
    function: Seq<char>,
    codes: Seq<Seq<char>>,
) -> bool {
    &&& codes.len() == instructions.len()
    &&& forall|k: int| 0 <= k < codes.len() ==> instruction_code(#[trigger] instructions[k], loops, function, codes[k])
}

/// How a call of the function `name` with `count` arguments ends: the call,
/// the arguments' stack space given back, the result saved in `slot`, a jump
/// to `error` when the call failed, and the result loaded.
pub open spec fn call_return_text(name: Seq<char>, count: nat, slot: int, error: Seq<char>) -> Seq<char> {
    "    call ad_fun_"@ + name + "\n"@ + stack_change("    add rsp, "@, count) + store_text(slot) + "\n"@
        + "    call ad_has_error\n    test eax, eax\n    jnz "@ + error + "\n"@ + load_text(slot) + "\n"@
}

/// The slots of a two-operand request, left one first.
pub open spec fn operand_pair(left: usize, right: usize) -> Seq<usize> {
    seq![left, right]
}

/// Whether `code` is what evaluating the operand `e` emits, where that is
/// known: a constant's load, or a variable's load from its slot.
pub open spec fn operand_code(e: Expression, code: Seq<char>) -> bool {
    match e.kind {
        Kind::Constant(value) => code == constant_text(value),
        Kind::Variable(slot) => code == load_text(slot as int) + "\n"@,
        _ => true,
    }
}

/// The code of a two-operand operation: the left operand `a` is evaluated
/// and saved in slot `left`, then the right operand `b` in slot `right`;
/// the request is cleared, its first operand is copied from `left` and its
/// second from `right`, and `ad_evaluate` runs `operation` on type `ty`.
pub open spec fn two_operand_code(
    before: Seq<char>,
    after: Seq<char>,
    a: Expression,
    b: Expression,
    operation: u32,
    ty: Type,
    error: Seq<char>,
) -> bool {
    exists|code_a: Seq<char>, code_b: Seq<char>, left: usize, right: usize, request: int|
        #![trigger operand_moves(request, operand_pair(left, right), 2), operand_code(a, code_a), operand_code(b, code_b)]
        operand_code(a, code_a) && operand_code(b, code_b) && after == before + code_a + (store_text(left as int)
            + "\n"@) + code_b + (store_text(right as int) + "\n"@) + request_zeroing(request, 10) + operand_moves(
            request,
            operand_pair(left, right),
            2,
        ) + evaluate_call_text(request, operation, ty, ty, error)
}

/// An operation's operands reach `ad_evaluate` in the order they are
/// written: for `x op y` on two variables, the code loads `x` and saves it
/// in a slot, loads `y` and saves it in another, and copies the first of
/// those slots into the request's first operand (bytes 0 to 15) and the
/// second into its second operand (bytes 16 to 31).
pub proof fn lemma_operands_reach_the_request_in_order(
    before: Seq<char>,
    after: Seq<char>,
    x: usize,
    y: usize,
    ty: Type,
    operation: u32,
    error: Seq<char>,
)
    requires
        two_operand_code(
            before,
            after,
            Expression { ty, kind: Kind::Variable(x) },
            Expression { ty, kind: Kind::Variable(y) },
            operation,
            ty,
            error,
        ),
    ensures
        exists|left: usize, right: usize, request: int, rest: Seq<char>|
            after == before + (load_text(x as int) + "\n"@) + (store_text(left as int) + "\n"@) + (load_text(
                y as int,
            ) + "\n"@) + (store_text(right as int) + "\n"@) + request_zeroing(request, 10) + (first_operand_move(
                request,
                left,
            ) + second_operand_move(request, right)) + rest,
{
    let a = Expression { ty, kind: Kind::Variable(x) };
    let b = Expression { ty, kind: Kind::Variable(y) };
    let (code_a, code_b, left, right, request) = choose|
        code_a: Seq<char>,
        code_b: Seq<char>,
        left: usize,
        right: usize,
        request: int,
    |
        #![trigger operand_moves(request, operand_pair(left, right), 2), operand_code(a, code_a), operand_code(b, code_b)]
        operand_code(a, code_a) && operand_code(b, code_b) && after == before + code_a + (store_text(left as int)
            + "\n"@) + code_b + (store_text(right as int) + "\n"@) + request_zeroing(request, 10) + operand_moves(
            request,
            operand_pair(left, right),
            2,
        ) + evaluate_call_text(request, operation, ty, ty, error);
    lemma_pair_moves(request, left, right);
}

/// The text of a two-operand operation put together from its steps (see
/// `two_operand_code`).
proof fn lemma_two_operand_text(
    t0: Seq<char>,
    t1: Seq<char>,
    t2: Seq<char>,
    t3: Seq<char>,
    t4: Seq<char>,
    t5: Seq<char>,
    a: Expression,
    b: Expression,
    left: usize,
    right: usize,
    next: usize,
    operation: u32,
    ty: Type,
    error: Seq<char>,
    operands: Seq<usize>,
)
    requires
        grows(t0, t1),
        a.kind matches Kind::Constant(v) ==> t1 == t0 + constant_text(v),
        a.kind matches Kind::Variable(slot) ==> t1 == t0 + (load_text(slot as int) + "\n"@),
        t2 == t1 + store_text(left as int) + "\n"@,
        grows(t2, t3),
        b.kind matches Kind::Constant(v) ==> t3 == t2 + constant_text(v),
        b.kind matches Kind::Variable(slot) ==> t3 == t2 + (load_text(slot as int) + "\n"@),
        t4 == t3 + store_text(right as int) + "\n"@,
        operands == seq![left, right],
        t5 == t4 + request_zeroing(request_slot(next), 10) + operand_moves(
            request_slot(next),
            operands,
            if operands.len() < 3 { operands.len() as int } else { 3 },
        ) + evaluate_call_text(request_slot(next), operation, ty, ty, error),
    ensures
        two_operand_code(t0, t5, a, b, operation, ty, error),
{
    lemma_grows_split(t0, t1);
    lemma_grows_split(t2, t3);
    let code_a = t1.subrange(t0.len() as int, t1.len() as int);
    let code_b = t3.subrange(t2.len() as int, t3.len() as int);
    match a.kind {
        Kind::Constant(v) => assert(code_a =~= constant_text(v)),
        Kind::Variable(slot) => assert(code_a =~= load_text(slot as int) + "\n"@),
        _ => {},
    }
    match b.kind {
        Kind::Constant(v) => assert(code_b =~= constant_text(v)),
        Kind::Variable(slot) => assert(code_b =~= load_text(slot as int) + "\n"@),
        _ => {},
    }
    assert(operand_code(a, code_a));
    assert(operand_code(b, code_b));
    assert(operands =~= operand_pair(left, right));
    let request = request_slot(next);
    assert(t2 == t1 + (store_text(left as int) + "\n"@));
    assert(t4 == t3 + (store_text(right as int) + "\n"@));
    assert(t5 == t0 + code_a + (store_text(left as int) + "\n"@) + code_b + (store_text(right as int) + "\n"@)
        + request_zeroing(request, 10) + operand_moves(request, operand_pair(left, right), 2) + evaluate_call_text(
        request,
        operation,
        ty,
        ty,
        error,
    ));
}

/// `middle` with `earlier` before it and `later` after it.
pub open spec fn around(earlier: Seq<char>, middle: Seq<char>, later: Seq<char>) -> Seq<char> {
    earlier + middle + later
}

/// The copy of slot `slot` into the outgoing stack argument `k`.
pub open spec fn stack_argument_copy(slot: usize, k: int) -> Seq<char> {
    load_text(slot as int) + "\n"@ + "    mov [rsp + "@ + nat_digits((k * 16) as nat) + "], rax\n    mov [rsp + "@
        + nat_digits((k * 16 + 8) as nat) + "], rdx"@ + "\n"@
}

/// One argument's evaluation appended to `before`: its code, the copy of
/// an object or list (`clone`), and the save into `slot`.
pub open spec fn argument_step(before: Seq<char>, code: Seq<char>, clone: Seq<char>, slot: usize) -> Seq<char> {
    before + code + clone + (store_text(slot as int) + "\n"@)
}

/// Whether the text from `before` to `after` evaluates the first `n`
/// arguments in order, saving argument `k` in `slots[k]`; only an object or
/// a list is copied before it is saved.
pub open spec fn arguments_saved(
    before: Seq<char>,
    after: Seq<char>,
    arguments: Seq<Expression>,
    slots: Seq<usize>,
    n: int,
) -> bool
    decreases n,
{
    if n <= 0 {
        after == before
    } else {
        exists|middle: Seq<char>, code: Seq<char>, clone: Seq<char>|
            #![trigger argument_step(middle, code, clone, slots[n - 1])]
            arguments_saved(before, middle, arguments, slots, n - 1) && operand_code(arguments[n - 1], code) && (
            arguments[n - 1].ty is Class || arguments[n - 1].ty is List || clone == Seq::<char>::empty())
                && after == argument_step(middle, code, clone, slots[n - 1])
    }
}

/// `arguments_saved` looks only at the first `n` slots.
proof fn lemma_arguments_saved_slots(
    before: Seq<char>,
    after: Seq<char>,
    arguments: Seq<Expression>,
    slots: Seq<usize>,
    other: Seq<usize>,
    n: int,
)
    requires
        arguments_saved(before, after, arguments, slots, n),
        forall|k: int| 0 <= k < n ==> slots[k] == other[k],
    ensures
        arguments_saved(before, after, arguments, other, n),
    decreases n,
{
    if n > 0 {
        let (middle, code, clone) = choose|middle: Seq<char>, code: Seq<char>, clone: Seq<char>|
            #![trigger argument_step(middle, code, clone, slots[n - 1])]
            arguments_saved(before, middle, arguments, slots, n - 1) && operand_code(arguments[n - 1], code) && (
            arguments[n - 1].ty is Class || arguments[n - 1].ty is List || clone == Seq::<char>::empty())
                && after == argument_step(middle, code, clone, slots[n - 1]);
        lemma_arguments_saved_slots(before, middle, arguments, slots, other, n - 1);
        assert(after == argument_step(middle, code, clone, other[n - 1]));
    }
}

/// Arguments reach a called function in the order they are written: where
/// argument `k` is the variable `variables[k]` (neither an object nor a
/// list), its value is loaded from that variable and saved in `slots[k]`,
/// with only the arguments before it evaluated earlier.
pub proof fn lemma_arguments_are_saved_in_order(
    before: Seq<char>,
    after: Seq<char>,
    arguments: Seq<Expression>,
    slots: Seq<usize>,
    variables: Seq<usize>,
    n: int,
    k: int,
)
    requires
        arguments_saved(before, after, arguments, slots, n),
        0 <= k < n,
        n <= arguments.len(),
        variables.len() == arguments.len(),
        forall|j: int| 0 <= j < arguments.len() ==> (#[trigger] arguments[j]).kind == Kind::Variable(variables[j])
            && !(arguments[j].ty is Class) && !(arguments[j].ty is List),
    ensures
        exists|earlier: Seq<char>, later: Seq<char>|
            #![trigger around(earlier, load_text(variables[k] as int) + "\n"@ + (store_text(slots[k] as int) + "\n"@), later)]
            arguments_saved(before, earlier, arguments, slots, k) && after == around(
                earlier,
                load_text(variables[k] as int) + "\n"@ + (store_text(slots[k] as int) + "\n"@),
                later,
            ),
    decreases n,
{
    let (middle, code, clone) = choose|middle: Seq<char>, code: Seq<char>, clone: Seq<char>|
        #![trigger argument_step(middle, code, clone, slots[n - 1])]
        arguments_saved(before, middle, arguments, slots, n - 1) && operand_code(arguments[n - 1], code) && (
        arguments[n - 1].ty is Class || arguments[n - 1].ty is List || clone == Seq::<char>::empty())
            && after == argument_step(middle, code, clone, slots[n - 1]);
    assert(arguments[n - 1].kind == Kind::Variable(variables[n - 1]));
    let saved = load_text(variables[k] as int) + "\n"@ + (store_text(slots[k] as int) + "\n"@);
    if k == n - 1 {
        assert(after =~= around(middle, saved, Seq::<char>::empty()));
    } else {
        lemma_arguments_are_saved_in_order(before, middle, arguments, slots, variables, n - 1, k);
        let (earlier, later) = choose|earlier: Seq<char>, later: Seq<char>|
            #![trigger around(earlier, saved, later)]
            arguments_saved(before, earlier, arguments, slots, k) && middle == around(earlier, saved, later);
        let rest = later + code + clone + (store_text(slots[n - 1] as int) + "\n"@);
        assert(after =~= around(earlier, saved, rest));
    }
}

/// The outgoing stack argument `k` (bytes `16 k` to `16 k + 15` above the
/// stack pointer) is copied from `slots[k]`.
pub proof fn lemma_stack_arguments_in_order(slots: Seq<usize>, n: int, k: int)
    requires
        0 <= k < n,
    ensures
        exists|earlier: Seq<char>, later: Seq<char>|
            #![trigger around(earlier, stack_argument_copy(slots[k], k), later)]
            argument_copies(slots, n) == around(earlier, stack_argument_copy(slots[k], k), later),
    decreases n,
{
    reveal(argument_copies);
    let piece = stack_argument_copy(slots[n - 1], n - 1);
    assert(argument_copies(slots, n) =~= argument_copies(slots, n - 1) + piece);
    if k == n - 1 {
        assert(argument_copies(slots, n) =~= around(argument_copies(slots, n - 1), piece, Seq::<char>::empty()));
    } else {
        lemma_stack_arguments_in_order(slots, n - 1, k);
        let (earlier, later) = choose|earlier: Seq<char>, later: Seq<char>|
            #![trigger around(earlier, stack_argument_copy(slots[k], k), later)]
            argument_copies(slots, n - 1) == around(earlier, stack_argument_copy(slots[k], k), later);
        assert(argument_copies(slots, n) =~= around(earlier, stack_argument_copy(slots[k], k), later + piece));
    }
}

/// The copy of the slot `left` into the request's first operand.
pub open spec fn first_operand_move(request: int, left: usize) -> Seq<char> {
    load_text(left as int) + "\n"@ + "    mov "@ + memory_text(request, 0) + ", rax\n    mov "@ + memory_text(request, 8)
        + ", rdx"@ + "\n"@
}

/// The copy of the slot `right` into the request's second operand.
pub open spec fn second_operand_move(request: int, right: usize) -> Seq<char> {
    load_text(right as int) + "\n"@ + "    mov "@ + memory_text(request, 16) + ", rax\n    mov "@ + memory_text(
        request,
        24,
    ) + ", rdx"@ + "\n"@
}

/// Copying two operands is copying the first, then the second.
proof fn lemma_pair_moves(request: int, left: usize, right: usize)
    ensures
        operand_moves(request, operand_pair(left, right), 2) == first_operand_move(request, left)
            + second_operand_move(request, right),
{
    reveal_with_fuel(operand_moves, 3);
    assert(operand_pair(left, right)[0] == left && operand_pair(left, right)[1] == right);
    assert(operand_moves(request, operand_pair(left, right), 0) == Seq::<char>::empty());
    assert(operand_moves(request, operand_pair(left, right), 1) =~= first_operand_move(request, left));
}

/// The instructions that load a constant into `rax:rdx`.
pub open spec fn constant_text(value: Value) -> Seq<char> {
    "    mov rax, "@ + nat_digits(value.lo as nat) + "\n    mov rdx, "@ + nat_digits(value.hi as nat)
        + "\n"@
}

/// The runtime operation code of an arithmetic operator.
pub open spec fn operation_code(op: Operator) -> u32 {
    match op {
        Operator::Add => 0,
        Operator::Subtract => 1,
        Operator::Multiply => 2,
        Operator::Divide => 3,
        Operator::Remainder => 13,
    }
}

/// The runtime operation code of a comparison.
pub open spec fn comparison_code(comparison: Comparison) -> u32 {
    match comparison {
        Comparison::Equal => 7,
        Comparison::NotEqual => 8,
        Comparison::Less => 9,
        Comparison::LessEqual => 10,
        Comparison::Greater => 11,
        Comparison::GreaterEqual => 12,
    }
}

/// The codes that the generated code hands the runtime mean the operators
/// they stand for: on integers `ad_evaluate` adds, subtracts, multiplies,
/// divides and takes the remainder (toward zero, refusing a zero divisor and
/// results beyond `i128`) for the codes of `+ - * / %`, and compares with
/// `== != < <= > >=` for the codes of the comparisons, left operand first.
pub proof fn lemma_operation_codes_mean_their_operators(x: int, y: int, z: int)
    ensures
        crate::types::integer_arithmetic(operation_code(Operator::Add), x, y, z) == if crate::types::fits_i128(
            x + y,
        ) {
            Some(x + y)
        } else {
            None
        },
        crate::types::integer_arithmetic(operation_code(Operator::Subtract), x, y, z) == if crate::types::fits_i128(
            x - y,
        ) {
            Some(x - y)
        } else {
            None
        },
        crate::types::integer_arithmetic(operation_code(Operator::Multiply), x, y, z) == if crate::types::fits_i128(
            x * y,
        ) {
            Some(x * y)
        } else {
            None
        },
        y != 0 ==> crate::types::integer_arithmetic(operation_code(Operator::Divide), x, y, z) == if crate::types::fits_i128(
            crate::types::quotient_toward_zero(x, y),
        ) {
            Some(crate::types::quotient_toward_zero(x, y))
        } else {
            None
        },
        y != 0 ==> crate::types::integer_arithmetic(operation_code(Operator::Remainder), x, y, z)
            == if crate::types::fits_i128(crate::types::remainder_toward_zero(x, y)) {
            Some(crate::types::remainder_toward_zero(x, y))
        } else {
            None
        },
        y == 0 ==> crate::types::integer_arithmetic(operation_code(Operator::Divide), x, y, z) is None,
        y == 0 ==> crate::types::integer_arithmetic(operation_code(Operator::Remainder), x, y, z) is None,
        crate::types::compares(comparison_code(Comparison::Equal), x, y) == (x == y),
        crate::types::compares(comparison_code(Comparison::NotEqual), x, y) == (x != y),
        crate::types::compares(comparison_code(Comparison::Less), x, y) == (x < y),
        crate::types::compares(comparison_code(Comparison::LessEqual), x, y) == (x <= y),
        crate::types::compares(comparison_code(Comparison::Greater), x, y) == (x > y),
        crate::types::compares(comparison_code(Comparison::GreaterEqual), x, y) == (x >= y),
{
}

/// The text ends with a call of `ad_evaluate` for operation `operation` on
/// type `ty` from type `from`, jumping to `error` on failure (see
/// `evaluate_call_text`).
pub open spec fn ends_with_evaluation(text: Seq<char>, operation: u32, ty: Type, from: Type, error: Seq<char>) -> bool {
    exists|head: Seq<char>, request: int| text == head + evaluate_call_text(request, operation, ty, from, error)
}

/// The code of a function named `name` with a frame of `frame` bytes whose
/// parameter copies and instructions are `body`: the stack-probing header,
/// the body, the error exit and the return, which loads the named result
/// (`result`) or `None`.
pub open spec fn function_code(name: Seq<char>, frame: nat, body: Seq<char>, result: Option<usize>) -> Seq<char> {
    function_header_text(name, frame) + body + function_footer_text(name, result)
}

/// The stack-probing header of the function `name` with a frame of `frame`
/// bytes.
pub open spec fn function_header_text(name: Seq<char>, frame: nat) -> Seq<char> {
    "ad_fun_"@ + name + ":\n    push rbp\n    mov rbp, rsp\n    mov r11, "@ + nat_digits(frame)
        + "\nad_probe_"@ + name + ":\n    cmp r11, 4096\n    jb ad_tail_"@ + name
        + "\n    sub rsp, 4096\n    test byte [rsp], 0\n    sub r11, 4096\n    jmp ad_probe_"@ + name
        + "\nad_tail_"@ + name + ":\n    sub rsp, r11\n    test byte [rsp], 0\n"@
}

/// The error exit and the return of the function `name`, which loads the
/// named result (`result`) or `None`.
pub open spec fn function_footer_text(name: Seq<char>, result: Option<usize>) -> Seq<char> {
    "    jmp ad_return_"@ + name + "\n"@ + "ad_error_"@ + name
        + ":\n    call ad_is_trying\n    test eax, eax\n    jnz ad_return_"@ + name
        + "\n    mov ecx, 2\n    call ExitProcess"@ + "\n"@ + "ad_return_"@ + name + ":"@ + "\n"@
        + match result {
        Some(slot) => load_text(slot as int) + "\n"@,
        None => "    xor eax, eax\n    xor edx, edx"@ + "\n"@,
    } + "    mov rsp, rbp\n    pop rbp\n    ret"@ + "\n"@
}

/// The header of a function (see `function_header_text`).
fn function_header(name: &str, frame: u128) -> (r: String)
    ensures
        r@ == function_header_text(name@, frame as nat),
{
    let mut header = concat3("ad_fun_", name, ":\n    push rbp\n    mov rbp, rsp\n    mov r11, ");
    header.append(number(frame).as_str());
    header.append("\nad_probe_");
    header.append(name);
    header.append(":\n    cmp r11, 4096\n    jb ad_tail_");
    header.append(name);
    header.append("\n    sub rsp, 4096\n    test byte [rsp], 0\n    sub r11, 4096\n    jmp ad_probe_");
    header.append(name);
    header.append("\nad_tail_");
    header.append(name);
    header.append(":\n    sub rsp, r11\n    test byte [rsp], 0\n");
    assert(header@ =~= function_header_text(name@, frame as nat));
    header
}

impl Generator {
    /// The label that errors jump to: the innermost error target, or the
    /// empty text when there is none.
    spec fn error_label(&self) -> Seq<char> {
        if self.error_targets@.len() > 0 {
            self.error_targets@.last()@
        } else {
            seq![]
        }
    }

    /// The label that a runtime error jumps to.
    fn error_target(&self) -> (r: String)
        ensures
            r@ == self.error_label(),
    {
        if self.error_targets.len() > 0 {
            self.error_targets[self.error_targets.len() - 1].clone()
        } else {
            String::new()
        }
    }

    /// A fresh label `ad_<prefix>_<n>`.
    fn label(&mut self, prefix: &str) -> (r: String)
        ensures
            r@ == "ad_"@ + prefix@ + "_"@ + nat_digits(old(self).next_label as nat),
            final(self).next_label == if old(self).next_label < usize::MAX {
                (old(self).next_label + 1) as usize
            } else {
                old(self).next_label
            },
            final(self).text == old(self).text,
            final(self).data == old(self).data,
            final(self).next_slot == old(self).next_slot,
            final(self).max_slot == old(self).max_slot,
            final(self).class_sizes == old(self).class_sizes,
            final(self).classes == old(self).classes,
            final(self).loop_stack == old(self).loop_stack,
            final(self).error_targets == old(self).error_targets,
    {
        let mut label = concat3("ad_", prefix, "_");
        label.append(number(self.next_label as u128).as_str());
        self.next_label = self.next_label.saturating_add(1);
        label
    }

    /// Appends a line (or lines) of assembly.
    fn emit(&mut self, text: &str)
        ensures
            final(self).text@ == old(self).text@ + text@ + "\n"@,
            final(self).next_slot == old(self).next_slot,
            final(self).data == old(self).data,
            emitted(*old(self), *final(self), text@ + "\n"@),
    {
        self.text.append(text);
        self.text.append("\n");
        assert(self.text@ =~= old(self).text@ + (text@ + "\n"@));
    }

    /// Reserves `count` slots and gives the last of them.
    fn reserve(&mut self, count: usize) -> (r: usize)
        ensures
            final(self).next_slot == if old(self).next_slot + count <= usize::MAX {
                (old(self).next_slot + count) as usize
            } else {
                usize::MAX
            },
            final(self).max_slot == if final(self).next_slot > old(self).max_slot {
                final(self).next_slot
            } else {
                old(self).max_slot
            },
            r == if final(self).next_slot > 0 { (final(self).next_slot - 1) as usize } else { 0 },
            final(self).text == old(self).text,
            final(self).data == old(self).data,
            final(self).class_sizes == old(self).class_sizes,
            final(self).classes == old(self).classes,
            final(self).next_label == old(self).next_label,
            final(self).loop_stack == old(self).loop_stack,
            final(self).error_targets == old(self).error_targets,
    {
        self.next_slot = self.next_slot.saturating_add(count);
        if self.next_slot > self.max_slot {
            self.max_slot = self.next_slot;
        }
        if self.next_slot > 0 {
            self.next_slot - 1
        } else {
            0
        }
    }

    /// Stores `rax:rdx` into a slot.
    fn store(&mut self, slot: usize)
        ensures
            emitted(*old(self), *final(self), store_text(slot as int) + "\n"@),
    {
        let mut text = concat3("    mov ", memory(slot, 0).as_str(), ", rax\n    mov ");
        text.append(memory(slot, 8).as_str());
        text.append(", rdx");
        self.emit(text.as_str());
    }

    /// Loads a slot into `rax:rdx`.
    fn load(&mut self, slot: usize)
        ensures
            emitted(*old(self), *final(self), load_text(slot as int) + "\n"@),
    {
        let mut text = concat3("    mov rax, ", memory(slot, 0).as_str(), "\n    mov rdx, ");
        text.append(memory(slot, 8).as_str());
        self.emit(text.as_str());
    }

    /// Stores `rax:rdx` into a new temporary slot.
    fn save(&mut self) -> (r: usize)
        ensures
            final(self).next_slot == if old(self).next_slot < usize::MAX {
                (old(self).next_slot + 1) as usize
            } else {
                usize::MAX
            },
            final(self).max_slot == if final(self).next_slot > old(self).max_slot {
                final(self).next_slot
            } else {
                old(self).max_slot
            },
            r == if final(self).next_slot > 0 { (final(self).next_slot - 1) as usize } else { 0 },
            final(self).text@ == old(self).text@ + store_text(r as int) + "\n"@,
            final(self).data == old(self).data,
            final(self).class_sizes == old(self).class_sizes,
            final(self).classes == old(self).classes,
            final(self).next_label == old(self).next_label,
            final(self).loop_stack == old(self).loop_stack,
            final(self).error_targets == old(self).error_targets,
    {
        let slot = self.reserve(1);
        self.store(slot);
        slot
    }

    /// The slot that saving a value takes next.
    spec fn saved_slot(&self) -> int {
        if self.next_slot < usize::MAX { self.next_slot as int } else { usize::MAX - 1 }
    }

    /// Prints the value in `rax:rdx` of type `ty`.
    fn print_loaded(&mut self, ty: Type, newline: bool)
        ensures
            old(self).max_slot <= final(self).max_slot,
            final(self).text@ == old(self).text@ + old(self).print_loaded_text(
                old(self).saved_slot(),
                ty,
                newline,
            ),
            final(self).data == old(self).data,
            final(self).next_label == old(self).next_label,
            final(self).loop_stack == old(self).loop_stack,
            final(self).error_targets == old(self).error_targets,
            final(self).classes == old(self).classes,
            final(self).class_sizes == old(self).class_sizes,
            final(self).next_slot == (old(self).saved_slot() + 1) as usize,
    {
        let slot = self.save();
        let error = self.error_target();
        let mut text = concat3("    lea rcx, ", memory(slot, 0).as_str(), "\n    mov edx, ");
        text.append(number(ty.id() as u128).as_str());
        text.append("\n    mov r8d, ");
        text.append(if newline {
            "1"
        } else {
            "0"
        });
        text.append("\n    call ad_print\n    test eax, eax\n    jnz ");
        text.append(error.as_str());
        self.emit(text.as_str());
        proof {
            reveal_strlit("1");
            reveal_strlit("0");
        }
        assert(self.text@ =~= old(self).text@ + old(self).print_loaded_text(
            old(self).saved_slot(),
            ty,
            newline,
        ));
    }

    /// The instructions that print the value in `rax:rdx` of type `ty`
    /// through `slot` (see `print_loaded`).
    spec fn print_loaded_text(&self, slot: int, ty: Type, newline: bool) -> Seq<char> {
        store_text(slot) + "\n"@ + "    lea rcx, "@ + memory_text(slot, 0) + "\n    mov edx, "@
            + nat_digits(ty.spec_id() as nat) + "\n    mov r8d, "@ + (if newline { "1"@ } else {
            "0"@
        }) + "\n    call ad_print\n    test eax, eax\n    jnz "@ + self.error_label() + "\n"@
    }

    /// Prints a string constant.
    fn print_text(&mut self, text: &str, newline: bool)
        ensures
            old(self).max_slot <= final(self).max_slot,
            final(self).data@.len() == old(self).data@.len() + 1,
            final(self).data@.drop_last() == old(self).data@,
            final(self).data@.last()@ == vstd::utf8::encode_utf8(text@),
            final(self).text@ == old(self).text@ + "    lea rax, [rel ad_string_"@ + nat_digits(
                old(self).data@.len() as nat,
            ) + "]\n    mov rdx, "@ + nat_digits(
                (vstd::utf8::encode_utf8(text@).len() as usize) as nat,
            ) + "\n"@ + old(self).print_loaded_text(old(self).saved_slot(), Type::String, newline),
            final(self).next_label == old(self).next_label,
            final(self).loop_stack == old(self).loop_stack,
            final(self).error_targets == old(self).error_targets,
            final(self).classes == old(self).classes,
            final(self).class_sizes == old(self).class_sizes,
    {
        let index = self.data.len();
        let bytes = vstd::slice::slice_to_vec(text.as_bytes());
        let length = bytes.len();
        self.data.push(bytes);
        let mut line = concat3("    lea rax, [rel ad_string_", number(index as u128).as_str(), "]\n    mov rdx, ");
        line.append(number(length as u128).as_str());
        self.emit(line.as_str());
        let ghost middle = *self;
        assert(middle.text@ =~= old(self).text@ + ("    lea rax, [rel ad_string_"@ + nat_digits(
            old(self).data@.len() as nat,
        ) + "]\n    mov rdx, "@ + nat_digits(
            (vstd::utf8::encode_utf8(text@).len() as usize) as nat,
        ) + "\n"@));
        assert(middle.saved_slot() == old(self).saved_slot());
        assert(middle.error_label() == old(self).error_label());
        assert(middle.print_loaded_text(middle.saved_slot(), Type::String, newline)
            == old(self).print_loaded_text(old(self).saved_slot(), Type::String, newline));
        self.print_loaded(Type::String, newline);
    }

    /// Prints an object as `Name(field=value, ...)` with its public fields.
    fn print_class(&mut self, value: &Expression, id: u32, newline: bool)
        ensures
            kept(*old(self), *final(self)),
            (id as int) < old(self).classes@.len() ==> exists|before: Seq<Seq<u8>>|
                data_views(final(self).data@) == before + class_labels(old(self).classes@[id as int]),
    {
        self.expression(value);
        let object = self.save();
        let index = id as usize;
        if index >= self.classes.len() {
            return;
        }
        let ghost base = data_views(self.data@);
        let ghost class = self.classes@[index as int];
        let opening = concat2(self.classes[index].name.as_str(), "(");
        self.print_text(opening.as_str(), false);
        proof {
            lemma_data_views_push(old_data(self.data@), self.data@);
        }
        let mut first = true;
        let mut f: usize = 0;
        let count = self.classes[index].fields.len();
        while f < count
            invariant
                kept(*old(self), *self),
                index < self.classes@.len(),
                self.classes@[index as int] == class,
                count == class.fields@.len(),
                f <= count,
                first == !any_public(class.fields@, f as int),
                data_views(self.data@) == base + seq![vstd::utf8::encode_utf8(class.name@ + "("@)]
                    + field_labels(class.fields@, f as int),
            decreases count - f,
        {
            if self.classes[index].fields[f].public {
                if !first {
                    self.print_text(", ", false);
                    proof {
                        lemma_data_views_push(old_data(self.data@), self.data@);
                    }
                }
                first = false;
                let label = concat2(self.classes[index].fields[f].name.as_str(), "=");
                self.print_text(label.as_str(), false);
                proof {
                    lemma_data_views_push(old_data(self.data@), self.data@);
                }
                self.load(object);
                self.emit("    mov r11, rax");
                let mut text = concat3("    mov rax, [r11 + ", number(f as u128 * 16).as_str(), "]\n    mov rdx, [r11 + ");
                text.append(number(f as u128 * 16 + 8).as_str());
                text.append("]");
                self.emit(text.as_str());
                let ty = self.classes[index].fields[f].ty;
                self.print_loaded(ty, false);
            }
            assert(data_views(self.data@) =~= base + seq![vstd::utf8::encode_utf8(class.name@ + "("@)]
                + field_labels(class.fields@, f + 1));
            f = f + 1;
        }
        self.print_text(")", newline);
        proof {
            lemma_data_views_push(old_data(self.data@), self.data@);
            assert(data_views(self.data@) =~= base + class_labels(class));
        }
    }

    /// Copies an object or list in `rax:rdx`, so that values are independent.
    fn clone_class(&mut self, ty: Type)
        ensures
            emitted(*old(self), *final(self), match ty {
                Type::Class(id) => "    mov rcx, rax\n    mov edx, "@ + nat_digits(
                    if (id as int) < old(self).class_sizes@.len() {
                        old(self).class_sizes@[id as int] as nat
                    } else {
                        0
                    },
                ) + "\n    call ad_object_clone\n    xor edx, edx"@ + "\n"@,
                Type::List(_) => "    sub rsp, 16\n    mov [rsp], rdx\n    mov rcx, rax\n    call ad_object_clone\n    mov rdx, [rsp]\n    add rsp, 16"@
                    + "\n"@,
                _ => seq![],
            }),
    {
        match ty {
            Type::Class(id) => {
                let size: u128 = if (id as usize) < self.class_sizes.len() {
                    self.class_sizes[id as usize] as u128
                } else {
                    0
                };
                let mut text = concat2("    mov rcx, rax\n    mov edx, ", number(size).as_str());
                text.append("\n    call ad_object_clone\n    xor edx, edx");
                self.emit(text.as_str());
            },
            Type::List(_) => self.emit(
                "    sub rsp, 16\n    mov [rsp], rdx\n    mov rcx, rax\n    call ad_object_clone\n    mov rdx, [rsp]\n    add rsp, 16",
            ),
            _ => {},
        }
    }

    /// Jumps to the error label when the runtime reports an error, and
    /// leaves the saved result in `rax:rdx`.
    fn check_error_and_load(&mut self, returned: usize)
        ensures
            emitted(
                *old(self),
                *final(self),
                "    call ad_has_error\n    test eax, eax\n    jnz "@ + old(self).error_label() + "\n"@
                    + load_text(returned as int) + "\n"@,
            ),
    {
        let error = self.error_target();
        let text = concat2("    call ad_has_error\n    test eax, eax\n    jnz ", error.as_str());
        self.emit(text.as_str());
        self.load(returned);
        assert(self.text@ =~= old(self).text@ + ("    call ad_has_error\n    test eax, eax\n    jnz "@
            + old(self).error_label() + "\n"@ + load_text(returned as int) + "\n"@));
    }

    /// Calls a function with the given arguments, each evaluated and copied
    /// into a temporary first; the stack is probed page by page.
    #[verifier::spinoff_prover]
    #[verifier::rlimit(60)]
    fn call(&mut self, name: &str, arguments: &Vec<Expression>)
        ensures
            kept(*old(self), *final(self)),
            exists|head: Seq<char>, slot: int|
                final(self).text@ == head + call_return_text(
                    name@,
                    arguments@.len(),
                    slot,
                    old(self).error_label(),
                ),
            exists|saved: Seq<char>, slots: Seq<usize>, probes: Seq<char>, slot: int|
                #![trigger arguments_saved(old(self).text@, saved, arguments@, slots, arguments@.len() as int), call_return_text(name@, arguments@.len(), slot, old(self).error_label()), saved + probes]
                slots.len() == arguments@.len() && arguments_saved(
                    old(self).text@,
                    saved,
                    arguments@,
                    slots,
                    arguments@.len() as int,
                ) && final(self).text@ == saved + probes + argument_copies(slots, arguments@.len() as int)
                    + call_return_text(name@, arguments@.len(), slot, old(self).error_label()),
        decreases arguments,
    {
        let mark = self.next_slot;
        let mut slots: Vec<usize> = Vec::new();
        let mut a: usize = 0;
        while a < arguments.len()
            invariant
                kept(*old(self), *self),
                slots@.len() == a,
                a <= arguments@.len(),
                arguments_saved(old(self).text@, self.text@, arguments@, slots@, a as int),
            decreases arguments.len() - a,
        {
            let ghost t0 = self.text@;
            let ghost s0 = slots@;
            self.expression(&arguments[a]);
            let ghost t1 = self.text@;
            self.clone_class(arguments[a].ty);
            let ghost t2 = self.text@;
            let slot = self.save();
            slots.push(slot);
            proof {
                lemma_grows_split(t0, t1);
                let code = t1.subrange(t0.len() as int, t1.len() as int);
                match arguments@[a as int].kind {
                    Kind::Constant(v) => assert(code =~= constant_text(v)),
                    Kind::Variable(sl) => assert(code =~= load_text(sl as int) + "\n"@),
                    _ => {},
                }
                let clone = t2.subrange(t1.len() as int, t2.len() as int);
                assert(t2 =~= t1 + clone);
                if !(arguments@[a as int].ty is Class) && !(arguments@[a as int].ty is List) {
                    assert(clone =~= Seq::<char>::empty());
                }
                assert(forall|k: int| 0 <= k < a ==> s0[k] == slots@[k]);
                lemma_arguments_saved_slots(old(self).text@, t0, arguments@, s0, slots@, a as int);
                assert(self.text@ == argument_step(t0, code, clone, slots@[a as int]));
            }
            a = a + 1;
        }
        let ghost saved = self.text@;
        let size: u128 = slots.len() as u128 * 16;
        let mut remaining: u128 = size;
        while remaining > 0
            invariant
                kept(*old(self), *self),
                grows(saved, self.text@),
            decreases remaining,
        {
            let step = if remaining < 4096 {
                remaining
            } else {
                4096
            };
            let text = concat3("    sub rsp, ", number(step).as_str(), "\n    test byte [rsp], 0");
            self.emit(text.as_str());
            remaining = remaining - step;
        }
        let ghost probed = self.text@;
        proof {
            reveal(argument_copies);
            assert(probed + argument_copies(slots@, 0) =~= probed);
        }
        let mut i: usize = 0;
        while i < slots.len()
            invariant
                kept(*old(self), *self),
                i <= slots@.len(),
                self.text@ == probed + argument_copies(slots@, i as int),
            decreases slots.len() - i,
        {
            let ghost before = self.text@;
            self.load(slots[i]);
            let mut text = concat3("    mov [rsp + ", number(i as u128 * 16).as_str(), "], rax\n    mov [rsp + ");
            text.append(number(i as u128 * 16 + 8).as_str());
            text.append("], rdx");
            self.emit(text.as_str());
            proof {
                reveal(argument_copies);
                assert(self.text@ =~= probed + argument_copies(slots@, i + 1));
            }
            i = i + 1;
        }
        let ghost head = self.text@;
        let ghost error = self.error_label();
        assert(error == old(self).error_label());
        let text = concat2("    call ad_fun_", name);
        self.emit(text.as_str());
        let ghost called = self.text@;
        if size != 0 {
            let text = concat2("    add rsp, ", number(size).as_str());
            self.emit(text.as_str());
        }
        proof {
            reveal(stack_change);
            assert(self.text@ =~= called + stack_change("    add rsp, "@, arguments@.len()));
        }
        let ghost restored = self.text@;
        let returned = self.save();
        self.check_error_and_load(returned);
        self.next_slot = mark;
        proof {
            assert(self.text@ =~= head + call_return_text(name@, arguments@.len(), returned as int, error));
            lemma_grows_split(saved, probed);
            let probes = probed.subrange(saved.len() as int, probed.len() as int);
            assert(self.text@ == saved + probes + argument_copies(slots@, arguments@.len() as int) + call_return_text(
                name@,
                arguments@.len(),
                returned as int,
                old(self).error_label(),
            ));
        }
    }

    /// Clears the ten words of the request at `request`.
    #[verifier::spinoff_prover]
    #[verifier::rlimit(80)]
    fn clear_request(&mut self, request: usize)
        ensures
            emitted(*old(self), *final(self), request_zeroing(request as int, 10)),
    {
        proof {
            reveal(request_zeroing);
        }
        let mut word: usize = 0;
        while word < 10
            invariant
                word <= 10,
                emitted(*old(self), *self, request_zeroing(request as int, word as int)),
            decreases 10 - word,
        {
            let text = concat3("    mov qword ", memory(request, word * 8).as_str(), ", 0");
            self.emit(text.as_str());
            assert(self.text@ =~= old(self).text@ + request_zeroing(request as int, word + 1));
            word = word + 1;
        }
    }

    /// Copies up to three operands into the request at `request`.
    #[verifier::spinoff_prover]
    #[verifier::rlimit(80)]
    fn copy_operands(&mut self, request: usize, operands: &Vec<usize>)
        ensures
            emitted(
                *old(self),
                *final(self),
                operand_moves(
                    request as int,
                    operands@,
                    if operands@.len() < 3 { operands@.len() as int } else { 3 },
                ),
            ),
    {
        proof {
            reveal(operand_moves);
        }
        let mut i: usize = 0;
        while i < operands.len() && i < 3
            invariant
                i <= 3,
                i <= operands@.len(),
                emitted(*old(self), *self, operand_moves(request as int, operands@, i as int)),
            decreases operands.len() - i,
        {
            self.load(operands[i]);
            let mut text = concat3("    mov ", memory(request, i * 16).as_str(), ", rax\n    mov ");
            text.append(memory(request, i * 16 + 8).as_str());
            text.append(", rdx");
            self.emit(text.as_str());
            assert(self.text@ =~= old(self).text@ + operand_moves(request as int, operands@, i + 1));
            i = i + 1;
        }
    }

    /// Fills in the operation and types of the request, calls
    /// `ad_evaluate` and loads the output.
    #[verifier::spinoff_prover]
    #[verifier::rlimit(80)]
    fn call_evaluate(&mut self, request: usize, operation: u32, ty: Type, from: Type)
        ensures
            emitted(
                *old(self),
                *final(self),
                evaluate_call_text(request as int, operation, ty, from, old(self).error_label()),
            ),
    {
        let error = self.error_target();
        let mut text = concat3("    mov dword ", memory(request, 64).as_str(), ", ");
        text.append(number(operation as u128).as_str());
        text.append("\n    mov dword ");
        text.append(memory(request, 68).as_str());
        text.append(", ");
        text.append(number(ty.id() as u128).as_str());
        text.append("\n    mov dword ");
        text.append(memory(request, 72).as_str());
        text.append(", ");
        text.append(number(from.id() as u128).as_str());
        text.append("\n    lea rcx, ");
        text.append(memory(request, 0).as_str());
        text.append("\n    call ad_evaluate\n    test eax, eax\n    jnz ");
        text.append(error.as_str());
        text.append("\n    mov rax, ");
        text.append(memory(request, 48).as_str());
        text.append("\n    mov rdx, ");
        text.append(memory(request, 56).as_str());
        self.emit(text.as_str());
        assert(self.text@ =~= old(self).text@ + evaluate_call_text(
            request as int,
            operation,
            ty,
            from,
            old(self).error_label(),
        ));
    }

    /// Calls the runtime's `ad_evaluate` with an 80-byte request: up to three
    /// operands, the output, the operation, the type and the source type.
    #[verifier::spinoff_prover]
    #[verifier::rlimit(80)]
    fn evaluate(&mut self, operation: u32, ty: Type, from: Type, operands: &Vec<usize>)
        ensures
            final(self).text@ == old(self).text@ + request_zeroing(request_slot(old(self).next_slot), 10)
                + operand_moves(
                request_slot(old(self).next_slot),
                operands@,
                if operands@.len() < 3 { operands@.len() as int } else { 3 },
            ) + evaluate_call_text(
                request_slot(old(self).next_slot),
                operation,
                ty,
                from,
                old(self).error_label(),
            ),
            final(self).next_slot == old(self).next_slot,
            final(self).max_slot >= old(self).max_slot,
            final(self).data == old(self).data,
            final(self).next_label == old(self).next_label,
            final(self).loop_stack == old(self).loop_stack,
            final(self).error_targets == old(self).error_targets,
            final(self).classes == old(self).classes,
            final(self).class_sizes == old(self).class_sizes,
    {
        let mark = self.next_slot;
        let request = self.reserve(5);
        self.clear_request(request);
        self.copy_operands(request, operands);
        self.call_evaluate(request, operation, ty, from);
        assert(self.text@ =~= old(self).text@ + request_zeroing(request_slot(old(self).next_slot), 10)
            + operand_moves(
            request_slot(old(self).next_slot),
            operands@,
            if operands@.len() < 3 { operands@.len() as int } else { 3 },
        ) + evaluate_call_text(
            request_slot(old(self).next_slot),
            operation,
            ty,
            from,
            old(self).error_label(),
        ));
        self.next_slot = mark;
    }

    /// Stores each saved value into the next 16 bytes of the object whose
    /// address is in `object`.
    #[verifier::spinoff_prover]
    #[verifier::rlimit(80)]
    fn fill_object(&mut self, object: usize, values: &Vec<usize>)
        ensures
            emitted(*old(self), *final(self), field_stores(object as int, values@, values@.len() as int)),
    {
        proof {
            reveal(field_stores);
        }
        let mut index: usize = 0;
        while index < values.len()
            invariant
                index <= values@.len(),
                emitted(*old(self), *self, field_stores(object as int, values@, index as int)),
            decreases values.len() - index,
        {
            let ghost before = *self;
            self.load(object);
            self.emit("    mov r11, rax");
            self.load(values[index]);
            let mut text = concat3("    mov [r11 + ", number(index as u128 * 16).as_str(), "], rax\n    mov [r11 + ");
            text.append(number(index as u128 * 16 + 8).as_str());
            text.append("], rdx");
            self.emit(text.as_str());
            proof {
                reveal_strlit("    mov r11, rax");
            }
            assert(self.text@ =~= old(self).text@ + field_stores(object as int, values@, index + 1));
            index = index + 1;
        }
    }

    /// Evaluates an expression into `rax:rdx`.
    #[verifier::spinoff_prover]
    #[verifier::rlimit(100)]
    fn expression(&mut self, expr: &Expression)
        ensures
            kept(*old(self), *final(self)),
            expr.kind matches Kind::Constant(value) ==> emitted(
                *old(self),
                *final(self),
                constant_text(value),
            ),
            expr.kind matches Kind::Variable(slot) ==> emitted(
                *old(self),
                *final(self),
                load_text(slot as int) + "\n"@,
            ),
            expr.kind matches Kind::Binary(op, _, _) ==> ends_with_evaluation(
                final(self).text@,
                operation_code(op),
                expr.ty,
                expr.ty,
                old(self).error_label(),
            ),
            expr.kind matches Kind::Binary(op, a, b) ==> two_operand_code(
                old(self).text@,
                final(self).text@,
                *a,
                *b,
                operation_code(op),
                expr.ty,
                old(self).error_label(),
            ),
            expr.kind matches Kind::Compare(comparison, a, b) ==> two_operand_code(
                old(self).text@,
                final(self).text@,
                *a,
                *b,
                comparison_code(comparison),
                a.ty,
                old(self).error_label(),
            ),
            expr.kind matches Kind::Compare(comparison, a, _) ==> ends_with_evaluation(
                final(self).text@,
                comparison_code(comparison),
                a.ty,
                a.ty,
                old(self).error_label(),
            ),
            expr.kind matches Kind::Negate(value) ==> ends_with_evaluation(
                final(self).text@,
                4,
                expr.ty,
                value.ty,
                old(self).error_label(),
            ),
            expr.kind matches Kind::Convert(value) ==> ends_with_evaluation(
                final(self).text@,
                5,
                expr.ty,
                value.ty,
                old(self).error_label(),
            ),
            expr.kind matches Kind::Call(name, arguments) ==> exists|
                saved: Seq<char>,
                slots: Seq<usize>,
                probes: Seq<char>,
                slot: int,
            |
                #![trigger arguments_saved(old(self).text@, saved, arguments@, slots, arguments@.len() as int), call_return_text(name@, arguments@.len(), slot, old(self).error_label()), saved + probes]
                slots.len() == arguments@.len() && arguments_saved(
                    old(self).text@,
                    saved,
                    arguments@,
                    slots,
                    arguments@.len() as int,
                ) && final(self).text@ == saved + probes + argument_copies(slots, arguments@.len() as int)
                    + call_return_text(name@, arguments@.len(), slot, old(self).error_label()),
            expr.kind matches Kind::Call(name, arguments) ==> exists|head: Seq<char>, slot: int|
                final(self).text@ == head + call_return_text(
                    name@,
                    arguments@.len(),
                    slot,
                    old(self).error_label(),
                ),
            expr.kind matches Kind::Logical(op, _, _) ==> logical_code(
                final(self).text@,
                op,
                label_name("logical_skip"@, old(self).next_label as nat),
                label_name(
                    "logical_end"@,
                    (if old(self).next_label < usize::MAX {
                        old(self).next_label + 1
                    } else {
                        old(self).next_label as int
                    }) as nat,
                ),
            ),
        decreases expr,
    {
        match &expr.kind {
            Kind::Constant(value) => {
                let mut text = concat2("    mov rax, ", number(value.lo as u128).as_str());
                text.append("\n    mov rdx, ");
                text.append(number(value.hi as u128).as_str());
                self.emit(text.as_str());
            },
            Kind::String(bytes) => {
                let index = self.data.len();
                self.data.push(bytes.clone());
                let mut text = concat3("    lea rax, [rel ad_string_", number(index as u128).as_str(), "]\n    mov rdx, ");
                text.append(number(bytes.len() as u128).as_str());
                self.emit(text.as_str());
            },
            Kind::Variable(slot) => self.load(*slot),
            Kind::Call(name, arguments) => self.call(name.as_str(), arguments),
            Kind::Construct(_, fields, constructor) => {
                let mark = self.next_slot;
                let mut values: Vec<usize> = Vec::new();
                let mut f: usize = 0;
                while f < fields.len()
                    invariant
                        kept(*old(self), *self),
                    decreases fields.len() - f,
                {
                    self.expression(&fields[f]);
                    self.clone_class(fields[f].ty);
                    let slot = self.save();
                    values.push(slot);
                    f = f + 1;
                }
                let mut text = concat2("    mov ecx, ", number(fields.len() as u128).as_str());
                text.append("\n    call ad_object_new\n    xor edx, edx");
                self.emit(text.as_str());
                let object = self.save();
                self.fill_object(object, &values);
                self.load(object);
                let receiver = self.save();
                let mut receivers: Vec<usize> = Vec::new();
                receivers.push(receiver);
                self.call_saved(constructor.as_str(), &receivers);
                self.load(object);
                self.next_slot = mark;
            },
            Kind::List(values) => {
                let mark = self.next_slot;
                let mut elements: Vec<usize> = Vec::new();
                let mut v: usize = 0;
                while v < values.len()
                    invariant
                        kept(*old(self), *self),
                    decreases values.len() - v,
                {
                    self.expression(&values[v]);
                    self.clone_class(values[v].ty);
                    let slot = self.save();
                    elements.push(slot);
                    v = v + 1;
                }
                let mut text = concat2("    mov ecx, ", number(values.len() as u128).as_str());
                text.append("\n    call ad_object_new");
                self.emit(text.as_str());
                let list = self.save();
                self.fill_object(list, &elements);
                self.load(list);
                let text = concat2("    mov rdx, ", number(values.len() as u128).as_str());
                self.emit(text.as_str());
                self.next_slot = mark;
            },
            Kind::Index(list, index) => {
                let mark = self.next_slot;
                self.expression(list);
                let list_slot = self.save();
                self.expression(index);
                let index_slot = self.save();
                self.emit_list_bounds(list_slot, index_slot);
                self.load(list_slot);
                self.emit("    mov r11, rax");
                self.load(index_slot);
                self.emit(
                    "    shl rax, 4\n    add r11, rax\n    mov rax, [r11]\n    mov rdx, [r11 + 8]",
                );
                self.next_slot = mark;
            },
            Kind::Field(object, index) => {
                self.expression(object);
                let mut text = concat2("    mov r11, rax\n    mov rax, [r11 + ", number(*index as u128 * 16).as_str());
                text.append("]\n    mov rdx, [r11 + ");
                text.append(number(*index as u128 * 16 + 8).as_str());
                text.append("]");
                self.emit(text.as_str());
            },
            Kind::MethodCall(name, object, arguments) => {
                let mark = self.next_slot;
                self.expression(object);
                let mut slots: Vec<usize> = Vec::new();
                let receiver = self.save();
                slots.push(receiver);
                let mut a: usize = 0;
                while a < arguments.len()
                    invariant
                        kept(*old(self), *self),
                    decreases arguments.len() - a,
                {
                    self.expression(&arguments[a]);
                    self.clone_class(arguments[a].ty);
                    let slot = self.save();
                    slots.push(slot);
                    a = a + 1;
                }
                self.call_saved(name.as_str(), &slots);
                self.next_slot = mark;
            },
            Kind::Negate(value) => {
                let mark = self.next_slot;
                self.expression(value);
                let slot = self.save();
                let mut operands: Vec<usize> = Vec::new();
                operands.push(slot);
                self.evaluate(4, expr.ty, value.ty, &operands);
                self.next_slot = mark;
            },
            Kind::Convert(value) => {
                let mark = self.next_slot;
                self.expression(value);
                let slot = self.save();
                let mut operands: Vec<usize> = Vec::new();
                operands.push(slot);
                self.evaluate(5, expr.ty, value.ty, &operands);
                self.next_slot = mark;
            },
            Kind::Unwrap(value) => {
                let compact = self.label("optional_compact");
                let done = self.label("optional_unwrapped");
                self.expression(value);
                let error = self.error_target();
                let mut text = concat3("    test rdx, rdx\n    jnz ", compact.as_str(), "\n    call ad_optional_error\n    jmp ");
                text.append(error.as_str());
                text.append("\n");
                text.append(compact.as_str());
                text.append(":\n    cmp rdx, 2\n    jne ");
                text.append(done.as_str());
                text.append("\n    mov r11, rax\n    mov rax, [r11]\n    mov rdx, [r11 + 8]\n");
                text.append(done.as_str());
                text.append(":");
                self.emit(text.as_str());
            },
            Kind::Not(value) => {
                self.expression(value);
                self.emit("    test rax, rax\n    sete al\n    movzx eax, al\n    xor edx, edx");
            },
            Kind::Logical(operator, a, b) => {
                let skip = self.label("logical_skip");
                let end = self.label("logical_end");
                self.expression(a);
                let ghost first = self.text@;
                self.emit("    test rax, rax");
                let or = match operator {
                    LogicalOperator::And => false,
                    LogicalOperator::Or => true,
                };
                let jump = concat2(if or {
                    "    jnz "
                } else {
                    "    jz "
                }, skip.as_str());
                self.emit(jump.as_str());
                let ghost second = self.text@;
                self.expression(b);
                let mut text = concat3("    jmp ", end.as_str(), "\n");
                text.append(skip.as_str());
                text.append(":\n    mov eax, ");
                text.append(if or {
                    "1"
                } else {
                    "0"
                });
                text.append("\n    xor edx, edx\n");
                text.append(end.as_str());
                text.append(":");
                let ghost third = self.text@;
                self.emit(text.as_str());
                proof {
                    lemma_grows_split(second, third);
                    let middle = third.subrange(second.len() as int, third.len() as int);
                    let skip_name = label_name("logical_skip"@, old(self).next_label as nat);
                    let end_name = label_name(
                        "logical_end"@,
                        (if old(self).next_label < usize::MAX {
                            old(self).next_label + 1
                        } else {
                            old(self).next_label as int
                        }) as nat,
                    );
                    assert(skip@ == skip_name);
                    assert(end@ == end_name);
                    assert(jump@ == logical_jump(*operator) + skip_name);
                    let tail = "    jmp "@ + end_name + "\n"@ + skip_name + ":\n    mov eax, "@ + logical_default(
                        *operator,
                    ) + "\n    xor edx, edx\n"@ + end_name + ":"@ + "\n"@;
                    assert(text@ + "\n"@ =~= tail);
                    assert(self.text@ =~= first + ("    test rax, rax"@ + "\n"@ + (logical_jump(*operator)
                        + skip_name + "\n"@)) + middle + tail);
                }
            },
            Kind::Binary(op, a, b) => {
                let mark = self.next_slot;
                let ghost t0 = self.text@;
                self.expression(a);
                let ghost t1 = self.text@;
                let left = self.save();
                let ghost t2 = self.text@;
                self.expression(b);
                let ghost t3 = self.text@;
                let right = self.save();
                let ghost t4 = self.text@;
                let operation: u32 = match op {
                    Operator::Add => 0,
                    Operator::Subtract => 1,
                    Operator::Multiply => 2,
                    Operator::Divide => 3,
                    Operator::Remainder => 13,
                };
                let mut operands: Vec<usize> = Vec::new();
                operands.push(left);
                operands.push(right);
                assert(operands@ =~= seq![left, right]);
                let ghost ns = self.next_slot;
                self.evaluate(operation, expr.ty, expr.ty, &operands);
                proof {
                    lemma_two_operand_text(t0, t1, t2, t3, t4, self.text@, **a, **b, left, right, ns, operation, expr.ty, old(self).error_label(), operands@);
                }
                self.next_slot = mark;
            },
            Kind::Compare(comparison, a, b) => {
                let mark = self.next_slot;
                let ghost t0 = self.text@;
                self.expression(a);
                let ghost t1 = self.text@;
                let left = self.save();
                let ghost t2 = self.text@;
                self.expression(b);
                let ghost t3 = self.text@;
                let right = self.save();
                let ghost t4 = self.text@;
                let operation: u32 = match comparison {
                    Comparison::Equal => 7,
                    Comparison::NotEqual => 8,
                    Comparison::Less => 9,
                    Comparison::LessEqual => 10,
                    Comparison::Greater => 11,
                    Comparison::GreaterEqual => 12,
                };
                let mut operands: Vec<usize> = Vec::new();
                operands.push(left);
                operands.push(right);
                assert(operands@ =~= seq![left, right]);
                let ghost ns = self.next_slot;
                self.evaluate(operation, a.ty, a.ty, &operands);
                proof {
                    lemma_two_operand_text(t0, t1, t2, t3, t4, self.text@, **a, **b, left, right, ns, operation, a.ty, old(self).error_label(), operands@);
                }
                self.next_slot = mark;
            },
        }
    }

    /// Copies the saved arguments into the outgoing stack area.
    #[verifier::spinoff_prover]
    #[verifier::rlimit(80)]
    fn copy_arguments(&mut self, slots: &Vec<usize>)
        ensures
            emitted(*old(self), *final(self), argument_copies(slots@, slots@.len() as int)),
    {
        proof {
            reveal(argument_copies);
        }
        let mut index: usize = 0;
        while index < slots.len()
            invariant
                index <= slots@.len(),
                emitted(*old(self), *self, argument_copies(slots@, index as int)),
            decreases slots.len() - index,
        {
            self.load(slots[index]);
            let mut text = concat3("    mov [rsp + ", number(index as u128 * 16).as_str(), "], rax\n    mov [rsp + ");
            text.append(number(index as u128 * 16 + 8).as_str());
            text.append("], rdx");
            self.emit(text.as_str());
            assert(self.text@ =~= old(self).text@ + argument_copies(slots@, index + 1));
            index = index + 1;
        }
    }

    /// Calls a function whose arguments are already saved in slots.
    #[verifier::spinoff_prover]
    #[verifier::rlimit(80)]
    fn call_saved(&mut self, name: &str, slots: &Vec<usize>)
        ensures
            old(self).max_slot <= final(self).max_slot,
            final(self).text@ == old(self).text@ + stack_change("    sub rsp, "@, slots@.len())
                + argument_copies(slots@, slots@.len() as int) + "    call ad_fun_"@ + name@ + "\n"@
                + stack_change("    add rsp, "@, slots@.len()) + store_text(old(self).saved_slot()) + "\n"@
                + "    call ad_has_error\n    test eax, eax\n    jnz "@ + old(self).error_label() + "\n"@
                + load_text(old(self).saved_slot()) + "\n"@,
            final(self).next_slot == (old(self).saved_slot() + 1) as usize,
            final(self).data == old(self).data,
            final(self).next_label == old(self).next_label,
            final(self).loop_stack == old(self).loop_stack,
            final(self).error_targets == old(self).error_targets,
            final(self).classes == old(self).classes,
            final(self).class_sizes == old(self).class_sizes,
    {
        let size: u128 = slots.len() as u128 * 16;
        if size != 0 {
            let text = concat2("    sub rsp, ", number(size).as_str());
            self.emit(text.as_str());
        }
        proof {
            reveal(stack_change);
        }
        assert(self.text@ =~= old(self).text@ + stack_change("    sub rsp, "@, slots@.len()));
        self.copy_arguments(slots);
        let text = concat2("    call ad_fun_", name);
        self.emit(text.as_str());
        if size != 0 {
            let text = concat2("    add rsp, ", number(size).as_str());
            self.emit(text.as_str());
        }
        let ghost before_save = *self;
        assert(before_save.text@ =~= old(self).text@ + stack_change("    sub rsp, "@, slots@.len())
            + argument_copies(slots@, slots@.len() as int) + "    call ad_fun_"@ + name@ + "\n"@
            + stack_change("    add rsp, "@, slots@.len()));
        assert(before_save.saved_slot() == old(self).saved_slot());
        let returned = self.save();
        self.check_error_and_load(returned);
        assert(self.text@ =~= old(self).text@ + stack_change("    sub rsp, "@, slots@.len())
            + argument_copies(slots@, slots@.len() as int) + "    call ad_fun_"@ + name@ + "\n"@
            + stack_change("    add rsp, "@, slots@.len()) + store_text(old(self).saved_slot()) + "\n"@
            + "    call ad_has_error\n    test eax, eax\n    jnz "@ + old(self).error_label() + "\n"@
            + load_text(old(self).saved_slot()) + "\n"@);
    }

    /// Jumps to the error label through `ad_list_error` when the index in
    /// `index` is not below the list's length.
    #[verifier::spinoff_prover]
    #[verifier::rlimit(80)]
    fn emit_list_bounds(&mut self, list: usize, index: usize)
        ensures
            final(self).text@ == old(self).text@ + load_text(index as int) + "\n"@ + "    cmp rax, "@
                + memory_text(list as int, 8) + "\n    jb "@ + "ad_list_index_valid_"@ + nat_digits(
                old(self).next_label as nat,
            ) + "\n"@ + "    mov rcx, rax\n    mov rdx, "@ + memory_text(list as int, 8)
                + "\n    call ad_list_error\n    jmp "@ + old(self).error_label() + "\n"@
                + "ad_list_index_valid_"@ + nat_digits(old(self).next_label as nat) + ":"@ + "\n"@,
            final(self).next_label == if old(self).next_label < usize::MAX {
                (old(self).next_label + 1) as usize
            } else {
                old(self).next_label
            },
            final(self).data == old(self).data,
            final(self).next_slot == old(self).next_slot,
            final(self).max_slot == old(self).max_slot,
            final(self).loop_stack == old(self).loop_stack,
            final(self).error_targets == old(self).error_targets,
            final(self).classes == old(self).classes,
            final(self).class_sizes == old(self).class_sizes,
    {
        let valid = self.label("list_index_valid");
        self.load(index);
        let mut text = concat3("    cmp rax, ", memory(list, 8).as_str(), "\n    jb ");
        text.append(valid.as_str());
        self.emit(text.as_str());
        let error = self.error_target();
        let mut text = concat3("    mov rcx, rax\n    mov rdx, ", memory(list, 8).as_str(), "\n    call ad_list_error\n    jmp ");
        text.append(error.as_str());
        text.append("\n");
        text.append(valid.as_str());
        text.append(":");
        self.emit(text.as_str());
        proof {
            reveal_strlit("list_index_valid");
            reveal_strlit("ad_");
            reveal_strlit("_");
            reveal_strlit("ad_list_index_valid_");
        }
        assert(valid@ =~= "ad_list_index_valid_"@ + nat_digits(old(self).next_label as nat));
        assert(self.text@ =~= old(self).text@ + load_text(index as int) + "\n"@ + "    cmp rax, "@
            + memory_text(list as int, 8) + "\n    jb "@ + "ad_list_index_valid_"@ + nat_digits(
            old(self).next_label as nat,
        ) + "\n"@ + "    mov rcx, rax\n    mov rdx, "@ + memory_text(list as int, 8)
            + "\n    call ad_list_error\n    jmp "@ + old(self).error_label() + "\n"@
            + "ad_list_index_valid_"@ + nat_digits(old(self).next_label as nat) + ":"@ + "\n"@);
    }
}


impl Generator {
    /// The type of a slot of the function being generated.
    fn slot_type(function: &Function, slot: usize) -> (r: Type)
        ensures
            r == if slot < function.types@.len() { function.types@[slot as int] } else { Type::NoneType },
    {
        if slot < function.types.len() {
            function.types[slot]
        } else {
            Type::NoneType
        }
    }

    /// Emits the code of a block of instructions.
    fn instructions(&mut self, instructions: &Vec<Instruction>, function: &Function)
        ensures
            kept(*old(self), *final(self)),
            final(self).next_slot == old(self).next_slot,
            exists|codes: Seq<Seq<char>>|
                #![trigger joined(codes)]
                codes.len() == instructions@.len() && final(self).text@ == old(self).text@ + joined(codes)
                    && forall|k: int| 0 <= k < codes.len() ==> instruction_code(
                    #[trigger] instructions@[k],
                    old(self).loop_stack@,
                    function.name@,
                    codes[k],
                ),
        decreases instructions,
    {
        let ghost mut codes: Seq<Seq<char>> = seq![];
        let mut i: usize = 0;
        while i < instructions.len()
            invariant
                kept(*old(self), *self),
                self.next_slot == old(self).next_slot,
                i <= instructions@.len(),
                codes.len() == i,
                self.text@ == old(self).text@ + joined(codes),
                forall|k: int| 0 <= k < codes.len() ==> instruction_code(
                    #[trigger] instructions@[k],
                    old(self).loop_stack@,
                    function.name@,
                    codes[k],
                ),
            decreases instructions.len() - i,
        {
            let mark = self.next_slot;
            let ghost before = self.text@;
            self.instruction(&instructions[i], function);
            proof {
                lemma_grows_split(before, self.text@);
                let code = self.text@.subrange(before.len() as int, self.text@.len() as int);
                let previous = codes;
                codes = codes.push(code);
                assert(codes.drop_last() =~= previous);
                assert(self.text@ =~= old(self).text@ + joined(codes));
                assert forall|k: int| 0 <= k < codes.len() implies instruction_code(
                    #[trigger] instructions@[k],
                    old(self).loop_stack@,
                    function.name@,
                    codes[k],
                ) by {
                    if k < i {
                        assert(codes[k] == previous[k]);
                    }
                }
            }
            self.next_slot = mark;
            i = i + 1;
        }
    }

    /// Emits the code of one instruction.
    #[verifier::spinoff_prover]
    #[verifier::rlimit(100)]
    fn instruction(&mut self, instruction: &Instruction, function: &Function)
        ensures
            kept(*old(self), *final(self)),
            *instruction matches Instruction::Assign(slot, _) ==> exists|head: Seq<char>|
                final(self).text@ == head + store_text(slot as int) + "\n"@,
            instruction_code(
                *instruction,
                old(self).loop_stack@,
                function.name@,
                final(self).text@.subrange(old(self).text@.len() as int, final(self).text@.len() as int),
            ),
        decreases instruction,
    {
        match instruction {
            Instruction::Noop => {
                assert(self.text@.subrange(self.text@.len() as int, self.text@.len() as int) =~= Seq::<
                    char,
                >::empty());
            },
            Instruction::Assign(slot, value) => {
                self.expression(value);
                self.clone_class(value.ty);
                let ghost before = self.text@;
                self.store(*slot);
                assert(self.text@ == before + store_text(*slot as int) + "\n"@);
                assert(kept(*old(self), *self));
                proof {
                    lemma_grows_split(old(self).text@, before);
                    let head = before.subrange(old(self).text@.len() as int, before.len() as int);
                    assert(self.text@.subrange(old(self).text@.len() as int, self.text@.len() as int) =~= head + (
                    store_text(*slot as int) + "\n"@));
                }
            },
            Instruction::Disconnect(destination, source) => {
                self.load(*source);
                self.store(*destination);
                assert(kept(*old(self), *self));
            },
            Instruction::Remove(object, hook) => {
                if let Some(hook) = hook {
                    self.expression(object);
                    let receiver = self.save();
                    let mut receivers: Vec<usize> = Vec::new();
                    receivers.push(receiver);
                    self.call_saved(hook.as_str(), &receivers);
                }
                assert(kept(*old(self), *self));
            },
            Instruction::Clamp(slot, low, high) => {
                self.expression(low);
                let low = self.save();
                self.expression(high);
                let high = self.save();
                let ty = Self::slot_type(function, *slot);
                let mut operands: Vec<usize> = Vec::new();
                operands.push(*slot);
                operands.push(low);
                operands.push(high);
                self.evaluate(6, ty, ty, &operands);
                self.store(*slot);
                assert(kept(*old(self), *self));
            },
            Instruction::Print(value, newline) => {
                if let Type::Class(id) = value.ty {
                    self.print_class(value, id, *newline);
                } else {
                    self.expression(value);
                    self.print_loaded(value.ty, *newline);
                }
                assert(kept(*old(self), *self));
            },
            Instruction::Message(message, panic, line) => {
                self.expression(message);
                let saved = self.save();
                let mut text = concat3("    lea rcx, ", memory(saved, 0).as_str(), "\n    mov edx, ");
                text.append(number(*line as u128).as_str());
                text.append("\n    mov r8d, ");
                text.append(if *panic {
                    "1"
                } else {
                    "0"
                });
                text.append("\n    call ad_message");
                self.emit(text.as_str());
                if *panic {
                    let error = self.error_target();
                    let text = concat2("    jmp ", error.as_str());
                    self.emit(text.as_str());
                }
                assert(kept(*old(self), *self));
            },
            Instruction::Call(expr) => self.expression(expr),
            Instruction::Exit => {
                self.emit("    xor ecx, ecx\n    call ExitProcess");
                assert(self.text@.subrange(old(self).text@.len() as int, self.text@.len() as int)
                    =~= "    xor ecx, ecx\n    call ExitProcess"@ + "\n"@);
            },
            Instruction::SetField(object, index, value, hook) => {
                self.expression(object);
                let receiver = self.save();
                self.expression(value);
                self.clone_class(value.ty);
                let field_value = self.save();
                self.load(receiver);
                self.emit("    mov r11, rax");
                self.load(field_value);
                let mut text = concat3("    mov [r11 + ", number(*index as u128 * 16).as_str(), "], rax\n    mov [r11 + ");
                text.append(number(*index as u128 * 16 + 8).as_str());
                text.append("], rdx");
                self.emit(text.as_str());
                if let Some(hook) = hook {
                    let mut receivers: Vec<usize> = Vec::new();
                    receivers.push(receiver);
                    self.call_saved(hook.as_str(), &receivers);
                }
                assert(kept(*old(self), *self));
            },
            Instruction::SetIndex(list, index, value) => {
                self.expression(list);
                let list = self.save();
                self.expression(index);
                let index = self.save();
                self.expression(value);
                self.clone_class(value.ty);
                let value = self.save();
                self.emit_list_bounds(list, index);
                self.load(list);
                self.emit("    mov r11, rax");
                self.load(index);
                self.emit("    shl rax, 4\n    add r11, rax");
                self.load(value);
                self.emit("    mov [r11], rax\n    mov [r11 + 8], rdx");
                assert(kept(*old(self), *self));
            },
            Instruction::If(condition, yes, no) => {
                let else_label = self.label("else");
                let end = self.label("if_end");
                self.expression(condition);
                let text = concat2("    test rax, rax\n    jz ", else_label.as_str());
                self.emit(text.as_str());
                self.instructions(yes, function);
                let mut text = concat3("    jmp ", end.as_str(), "\n");
                text.append(else_label.as_str());
                text.append(":");
                self.emit(text.as_str());
                self.instructions(no, function);
                let text = concat2(end.as_str(), ":");
                self.emit(text.as_str());
                assert(kept(*old(self), *self));
            },
            Instruction::While(condition, body) => {
                let (start, end) = self.loop_head(condition, true);
                let ghost pushed = self.loop_stack@;
                self.instructions(body, function);
                self.loop_foot(start, end);
                assert(pushed.drop_last() =~= old(self).loop_stack@);
                assert(kept(*old(self), *self));
            },
            Instruction::Until(condition, body) => {
                let (start, end) = self.loop_head(condition, false);
                let ghost pushed = self.loop_stack@;
                self.instructions(body, function);
                self.loop_foot(start, end);
                assert(pushed.drop_last() =~= old(self).loop_stack@);
                assert(kept(*old(self), *self));
            },
            Instruction::Loop(body) => {
                let start = self.label("loop");
                let end = self.label("loop_end");
                let ghost before_push = self.loop_stack@;
                self.loop_stack.push((start.clone(), end.clone()));
                let ghost pushed = self.loop_stack@;
                let text = concat2(start.as_str(), ":");
                self.emit(text.as_str());
                self.instructions(body, function);
                let mut text = concat3("    jmp ", start.as_str(), "\n");
                text.append(end.as_str());
                text.append(":");
                self.emit(text.as_str());
                self.loop_stack.pop();
                assert(pushed.drop_last() =~= before_push);
                assert(kept(*old(self), *self));
            },
            Instruction::For(slot, start_value, end_value, body) => {
                self.expression(start_value);
                self.store(*slot);
                self.expression(end_value);
                let end_slot = self.save();
                let condition = self.label("for_condition");
                let increment = self.label("for_increment");
                let end = self.label("loop_end");
                let ghost before_push = self.loop_stack@;
                self.loop_stack.push((increment.clone(), end.clone()));
                let ghost pushed = self.loop_stack@;
                let text = concat2(condition.as_str(), ":");
                self.emit(text.as_str());
                let mut operands: Vec<usize> = Vec::new();
                operands.push(*slot);
                operands.push(end_slot);
                self.evaluate(9, start_value.ty, start_value.ty, &operands);
                let text = concat2("    test rax, rax\n    jz ", end.as_str());
                self.emit(text.as_str());
                self.instructions(body, function);
                let text = concat2(increment.as_str(), ":\n    mov rax, 1\n    xor edx, edx");
                self.emit(text.as_str());
                let one = self.save();
                let mut operands: Vec<usize> = Vec::new();
                operands.push(*slot);
                operands.push(one);
                self.evaluate(0, start_value.ty, start_value.ty, &operands);
                self.store(*slot);
                let mut text = concat3("    jmp ", condition.as_str(), "\n");
                text.append(end.as_str());
                text.append(":");
                self.emit(text.as_str());
                self.loop_stack.pop();
                assert(pushed.drop_last() =~= before_push);
                assert(kept(*old(self), *self));
            },
            Instruction::Match(value, arms, fallback) => {
                self.expression(value);
                let matched_value = self.save();
                let end = self.label("match_end");
                let mut a: usize = 0;
                while a < arms.len()
                    invariant
                        kept(*old(self), *self),
                    decreases arms.len() - a,
                {
                    let next = self.label("match_next");
                    self.expression(&arms[a].0);
                    let pattern = self.save();
                    let mut operands: Vec<usize> = Vec::new();
                    operands.push(matched_value);
                    operands.push(pattern);
                    self.evaluate(7, value.ty, value.ty, &operands);
                    let text = concat2("    test rax, rax\n    jz ", next.as_str());
                    self.emit(text.as_str());
                    self.instructions(&arms[a].1, function);
                    let mut text = concat3("    jmp ", end.as_str(), "\n");
                    text.append(next.as_str());
                    text.append(":");
                    self.emit(text.as_str());
                    a = a + 1;
                }
                if let Some(body) = fallback {
                    self.instructions(body, function);
                }
                let text = concat2(end.as_str(), ":");
                self.emit(text.as_str());
                assert(kept(*old(self), *self));
            },
            Instruction::Break => {
                if self.loop_stack.len() > 0 {
                    let text = concat2("    jmp ", self.loop_stack[self.loop_stack.len() - 1].1.as_str());
                    self.emit(text.as_str());
                }
                assert(kept(*old(self), *self));
                assert(self.text@.subrange(old(self).text@.len() as int, self.text@.len() as int) =~= if old(
                    self,
                ).loop_stack@.len() > 0 {
                    "    jmp "@ + old(self).loop_stack@.last().1@ + "\n"@
                } else {
                    Seq::<char>::empty()
                });
            },
            Instruction::Continue => {
                if self.loop_stack.len() > 0 {
                    let text = concat2("    jmp ", self.loop_stack[self.loop_stack.len() - 1].0.as_str());
                    self.emit(text.as_str());
                }
                assert(kept(*old(self), *self));
                assert(self.text@.subrange(old(self).text@.len() as int, self.text@.len() as int) =~= if old(
                    self,
                ).loop_stack@.len() > 0 {
                    "    jmp "@ + old(self).loop_stack@.last().0@ + "\n"@
                } else {
                    Seq::<char>::empty()
                });
            },
            Instruction::Return => {
                let text = concat2("    jmp ad_return_", function.name.as_str());
                self.emit(text.as_str());
                assert(kept(*old(self), *self));
                assert(self.text@.subrange(old(self).text@.len() as int, self.text@.len() as int)
                    =~= "    jmp ad_return_"@ + function.name@ + "\n"@);
            },
        }
    }

    /// The start of `while` (leaving when the condition is false) or
    /// `until` (leaving when it is true): the loop's labels are pushed.
    fn loop_head(&mut self, condition: &Expression, while_true: bool) -> (r: (String, String))
        ensures
            old(self).max_slot <= final(self).max_slot,
            grows(old(self).text@, final(self).text@),
            final(self).loop_stack@ == old(self).loop_stack@.push(r),
            final(self).error_targets@ == old(self).error_targets@,
            final(self).classes@ == old(self).classes@,
            final(self).class_sizes@ == old(self).class_sizes@,
            r.0@ == "ad_"@ + "condition"@ + "_"@ + nat_digits(old(self).next_label as nat),
            r.1@ == "ad_"@ + "loop_end"@ + "_"@ + nat_digits(
                (if old(self).next_label < usize::MAX {
                    old(self).next_label + 1
                } else {
                    old(self).next_label as int
                }) as nat,
            ),
    {
        let start = self.label("condition");
        let end = self.label("loop_end");
        self.loop_stack.push((start.clone(), end.clone()));
        let text = concat2(start.as_str(), ":");
        self.emit(text.as_str());
        self.expression(condition);
        let mut text = owned(if while_true {
            "    test rax, rax\n    jz "
        } else {
            "    test rax, rax\n    jnz "
        });
        text.append(end.as_str());
        self.emit(text.as_str());
        (start, end)
    }

    /// The end of a `while` or `until` loop: its labels are popped.
    fn loop_foot(&mut self, start: String, end: String)
        ensures
            final(self).text@ == old(self).text@ + "    jmp "@ + start@ + "\n"@ + end@ + ":"@ + "\n"@,
            final(self).loop_stack@ == if old(self).loop_stack@.len() > 0 {
                old(self).loop_stack@.drop_last()
            } else {
                old(self).loop_stack@
            },
            final(self).data == old(self).data,
            final(self).next_slot == old(self).next_slot,
            final(self).max_slot == old(self).max_slot,
            final(self).next_label == old(self).next_label,
            final(self).error_targets == old(self).error_targets,
            final(self).classes == old(self).classes,
            final(self).class_sizes == old(self).class_sizes,
    {
        let mut text = concat3("    jmp ", start.as_str(), "\n");
        text.append(end.as_str());
        text.append(":");
        self.emit(text.as_str());
        self.loop_stack.pop();
    }
}


impl Generator {
    /// Emits a function: its prologue with a page-by-page stack probe for
    /// its frame, the parameters copied into their slots, its instructions,
    /// the error exit, and the return of its named result.
    fn function(&mut self, function: &Function)
        ensures
            context_kept(*old(self), *final(self)),
            exists|slots: nat, codes: Seq<Seq<char>>|
                slots >= function.types@.len() && final(self).text@ == old(self).text@ + #[trigger] function_code(
                    function.name@,
                    frame_size(slots),
                    parameter_copies(function.parameters as nat) + joined(codes),
                    function.result,
                ) && instructions_code(function.instructions@, old(self).loop_stack@, function.name@, codes),
    {
        self.next_slot = function.types.len();
        self.max_slot = self.next_slot;
        let before = self.text.clone();
        self.text = String::new();
        let name = function.name.as_str();
        let error = concat2("ad_error_", name);
        self.error_targets.push(error.clone());
        let mut slot: usize = 0;
        while slot < function.parameters
            invariant
                slot <= function.parameters,
                self.text@ == parameter_copies(slot as nat),
                self.max_slot == function.types@.len(),
                self.error_targets@ == old(self).error_targets@.push(error),
                self.loop_stack@ == old(self).loop_stack@,
                self.classes@ == old(self).classes@,
                self.class_sizes@ == old(self).class_sizes@,
            decreases function.parameters - slot,
        {
            let mut text = concat3("    mov rax, [rbp + ", number(16 + slot as u128 * 16).as_str(), "]\n    mov rdx, [rbp + ");
            text.append(number(24 + slot as u128 * 16).as_str());
            text.append("]");
            self.emit(text.as_str());
            self.store(slot);
            assert(self.text@ =~= parameter_copies((slot + 1) as nat));
            slot = slot + 1;
        }
        let ghost copies = self.text@;
        self.instructions(&function.instructions, function);
        let ghost body = self.text@;
        let ghost codes = choose|codes: Seq<Seq<char>>|
            #![trigger joined(codes)]
            codes.len() == function.instructions@.len() && body == copies + joined(codes)
                && forall|k: int| 0 <= k < codes.len() ==> instruction_code(
                #[trigger] function.instructions@[k],
                old(self).loop_stack@,
                function.name@,
                codes[k],
            );
        assert(instructions_code(function.instructions@, old(self).loop_stack@, function.name@, codes));
        self.error_targets.pop();
        assert(old(self).error_targets@.push(error).drop_last() =~= old(self).error_targets@);
        self.function_footer(name, error.as_str(), function.result);
        let frame: u128 = self.max_slot as u128 * 16 + 32;
        let header = function_header(name, frame);
        let mut text = before;
        text.append(header.as_str());
        text.append(self.text.as_str());
        self.text = text;
        assert(self.text@ =~= old(self).text@ + function_code(function.name@, frame as nat, body, function.result));
        assert(body == parameter_copies(function.parameters as nat) + joined(codes));
        assert(frame as nat == frame_size(self.max_slot as nat));
        assert(self.text@ == old(self).text@ + function_code(
            function.name@,
            frame_size(self.max_slot as nat),
            parameter_copies(function.parameters as nat) + joined(codes),
            function.result,
        ));
    }

    /// The error exit and the return of the function `name` whose error
    /// label is `error`.
    #[verifier::spinoff_prover]
    fn function_footer(&mut self, name: &str, error: &str, result: Option<usize>)
        requires
            error@ == "ad_error_"@ + name@,
        ensures
            kept(*old(self), *final(self)),
            final(self).text@ == old(self).text@ + function_footer_text(name@, result),
    {
        let mut text = concat3("    jmp ad_return_", name, "\n");
        text.append(error);
        text.append(":\n    call ad_is_trying\n    test eax, eax\n    jnz ad_return_");
        text.append(name);
        text.append("\n    mov ecx, 2\n    call ExitProcess");
        self.emit(text.as_str());
        let text = concat3("ad_return_", name, ":");
        self.emit(text.as_str());
        match result {
            Some(slot) => self.load(slot),
            None => self.emit("    xor eax, eax\n    xor edx, edx"),
        }
        self.emit("    mov rsp, rbp\n    pop rbp\n    ret");
        assert(self.text@ =~= old(self).text@ + function_footer_text(name@, result));
    }
}

/// The size in bytes of a frame with `slots` slots.
pub open spec fn frame_size(slots: nat) -> nat {
    16 * slots + 32
}

/// The code that copies the first `n` parameters from the caller's stack
/// into their slots, in order.
pub open spec fn parameter_copies(n: nat) -> Seq<char>
    decreases n,
{
    if n == 0 {
        seq![]
    } else {
        let slot = (n - 1) as nat;
        parameter_copies(slot) + ("    mov rax, [rbp + "@ + nat_digits(16 + slot * 16) + "]\n    mov rdx, [rbp + "@
            + nat_digits(24 + slot * 16) + "]"@ + "\n"@) + (store_text(slot as int) + "\n"@)
    }
}

/// Whether `frame` and `body` fit `function`: the frame has room for a slot
/// per variable, and the body copies the parameters into their slots and
/// then holds the code of each instruction in turn (see `instruction_code`).
pub open spec fn function_layout(function: Function, frame: nat, body: Seq<char>) -> bool {
    exists|slots: nat, codes: Seq<Seq<char>>|
        #![trigger frame_size(slots), joined(codes)]
        slots >= function.types@.len() && frame == frame_size(slots) && body == parameter_copies(
            function.parameters as nat,
        ) + joined(codes) && instructions_code(function.instructions@, seq![], function.name@, codes)
}

/// The code of the functions `0..n` in order, each with its frame size and
/// body (see `function_code`).
pub open spec fn functions_code(functions: Seq<Function>, frames: Seq<nat>, bodies: Seq<Seq<char>>, n: int) -> Seq<char>
    decreases n,
{
    if n <= 0 {
        seq![]
    } else {
        functions_code(functions, frames, bodies, n - 1) + function_code(
            functions[n - 1].name@,
            frames[n - 1],
            bodies[n - 1],
            functions[n - 1].result,
        )
    }
}

/// The code of the first `n` functions reads only the first `n` frames and
/// bodies.
proof fn lemma_functions_code_prefix(
    functions: Seq<Function>,
    frames: Seq<nat>,
    bodies: Seq<Seq<char>>,
    longer_frames: Seq<nat>,
    longer_bodies: Seq<Seq<char>>,
    n: int,
)
    requires
        0 <= n <= frames.len() <= longer_frames.len(),
        n <= bodies.len() <= longer_bodies.len(),
        forall|k: int| 0 <= k < n ==> frames[k] == longer_frames[k] && bodies[k] == longer_bodies[k],
    ensures
        functions_code(functions, frames, bodies, n) == functions_code(functions, longer_frames, longer_bodies, n),
    decreases n,
{
    if n > 0 {
        lemma_functions_code_prefix(functions, frames, bodies, longer_frames, longer_bodies, n - 1);
    }
}

/// The generated code before renaming: the command-line entry for `main`
/// (function `i`), the code of every function in order (see
/// `functions_code`) and the data section with the string constants
/// `strings` (see `strings_text`).
pub open spec fn generated_code(
    functions: Seq<Function>,
    i: int,
    frames: Seq<nat>,
    bodies: Seq<Seq<char>>,
    strings: Seq<Seq<u8>>,
) -> Seq<char> {
    cli_entry_text(functions[i].name@, functions[i].parameters as nat) + "\n"@ + functions_code(
        functions,
        frames,
        bodies,
        functions.len() as int,
    ) + "section .rdata"@ + "\n"@ + strings_text(strings, strings.len() as int)
}

/// The runtime functions whose Linux versions have other names, each with
/// its Linux name.
pub open spec fn linux_pairs() -> Seq<(Seq<char>, Seq<char>)> {
    seq![
        ("ExitProcess"@, "ad_linux_exit"@),
        ("ad_evaluate"@, "ad_linux_evaluate"@),
        ("ad_print"@, "ad_linux_print"@),
        ("ad_message"@, "ad_linux_message"@),
        ("ad_object_new"@, "ad_linux_object_new"@),
        ("ad_object_clone"@, "ad_linux_object_clone"@),
        ("ad_list_error"@, "ad_linux_list_error"@),
        ("ad_optional_error"@, "ad_linux_optional_error"@),
        ("ad_parse_arguments"@, "ad_linux_parse_arguments"@),
        ("ad_try_begin"@, "ad_linux_try_begin"@),
        ("ad_try_end"@, "ad_linux_try_end"@),
        ("ad_has_error"@, "ad_linux_has_error"@),
        ("ad_is_trying"@, "ad_linux_is_trying"@),
    ]
}

/// `text` with the calls of the first `n` renamed runtime functions
/// (`call name`) replaced, one name after the other, by calls of their
/// Linux versions.
pub open spec fn linux_renamed(text: Seq<char>, pairs: Seq<(Seq<char>, Seq<char>)>, n: int) -> Seq<char>
    decreases n,
{
    if n <= 0 {
        text
    } else {
        replaced(linux_renamed(text, pairs, n - 1), "call "@ + pairs[n - 1].0, "call "@ + pairs[n - 1].1)
    }
}

/// `text` is the runtime, the generated code (see `generated_code`; for
/// Linux with the runtime calls renamed, see `linux_renamed`) and `main`'s
/// argument table, where each function's frame and body fit it (see
/// `function_layout`).
pub open spec fn assembled(
    text: Seq<char>,
    runtime: Seq<char>,
    functions: Seq<Function>,
    i: int,
    frames: Seq<nat>,
    bodies: Seq<Seq<char>>,
    strings: Seq<Seq<u8>>,
    linux: bool,
) -> bool {
    &&& text == runtime + (if linux {
        linux_renamed(generated_code(functions, i, frames, bodies, strings), linux_pairs(), linux_pairs().len() as int)
    } else {
        generated_code(functions, i, frames, bodies, strings)
    }) + argument_table(functions[i])
    &&& frames.len() == functions.len()
    &&& bodies.len() == functions.len()
    &&& forall|k: int| 0 <= k < functions.len() ==> function_layout(#[trigger] functions[k], frames[k], bodies[k])
}

/// The frame bytes that `ad_parse_arguments` fills for `count` arguments.
pub open spec fn cli_output_size(count: nat) -> nat {
    if count > 1 {
        count * 16
    } else {
        16
    }
}

/// The instructions that copy the parsed arguments `0..count` from the frame
/// (ending `output` bytes below `rbp`) into the outgoing stack area.
#[verifier::opaque]
pub open spec fn cli_copies(output: nat, count: nat) -> Seq<char>
    decreases count,
{
    if count == 0 {
        seq![]
    } else {
        let k = (count - 1) as nat;
        cli_copies(output, k) + "    mov rax, [rbp - "@ + nat_digits((output - k * 16) as nat)
            + "]\n    mov rdx, [rbp - "@ + nat_digits((output - k * 16 - 8) as nat) + "]\n    mov [rsp + "@
            + nat_digits(k * 16) + "], rax\n    mov [rsp + "@ + nat_digits(k * 16 + 8) + "], rdx\n"@
    }
}

/// The text of `ad_cli_main` for a `main` named `name` with `count`
/// parameters.
pub open spec fn cli_entry_text(name: Seq<char>, count: nat) -> Seq<char> {
    let output = cli_output_size(count);
    "ad_cli_main:\n    push rbp\n    mov rbp, rsp\n    sub rsp, "@ + nat_digits((output + 63) / 16 * 16)
        + "\n    lea r8, [rel ad_argument_specs]\n    mov r9d, "@ + nat_digits(count)
        + "\n    lea rax, [rbp - "@ + nat_digits(output)
        + "]\n    mov [rsp + 32], rax\n    call ad_parse_arguments\n    test eax, eax\n    jnz ad_exit_error\n"@
        + stack_change("    sub rsp, "@, count) + cli_copies(output, count) + "    call ad_fun_"@ + name
        + "\n"@ + stack_change("    add rsp, "@, count) + "    mov rsp, rbp\n    pop rbp\n    ret\n"@
}

/// The copies of the parsed arguments (see `cli_copies`).
#[verifier::spinoff_prover]
fn cli_argument_copies(output_size: u128, count: u128) -> (r: String)
    requires
        count <= usize::MAX,
        output_size == cli_output_size(count as nat),
    ensures
        r@ == cli_copies(output_size as nat, count as nat),
{
    proof {
        reveal(cli_copies);
    }
    let mut text = String::new();
    let mut index: u128 = 0;
    while index < count
        invariant
            count <= usize::MAX,
            index <= count,
            output_size == cli_output_size(count as nat),
            text@ == cli_copies(output_size as nat, index as nat),
        decreases count - index,
    {
        text.append("    mov rax, [rbp - ");
        text.append(number(output_size - index * 16).as_str());
        text.append("]\n    mov rdx, [rbp - ");
        text.append(number(output_size - index * 16 - 8).as_str());
        text.append("]\n    mov [rsp + ");
        text.append(number(index * 16).as_str());
        text.append("], rax\n    mov [rsp + ");
        text.append(number(index * 16 + 8).as_str());
        text.append("], rdx\n");
        assert(text@ =~= cli_copies(output_size as nat, (index + 1) as nat));
        index = index + 1;
    }
    text
}

/// The data section's string constants `ad_string_<i>`, each as `db`
/// lines of at most 32 bytes and a final zero byte.
fn data_section(data: &Vec<Vec<u8>>) -> (r: String)
    ensures
        r@ == strings_text(data_views(data@), data@.len() as int),
{
    let mut data_text = String::new();
    let mut i: usize = 0;
    while i < data.len()
        invariant
            i <= data@.len(),
            data_text@ == strings_text(data_views(data@), i as int),
        decreases data.len() - i,
    {
        data_text.append("ad_string_");
        data_text.append(number(i as u128).as_str());
        data_text.append(":\n");
        let ghost header = data_text@;
        let bytes = data[i].as_slice();
        assert(bytes@ == data_views(data@)[i as int]);
        let mut start: usize = 0;
        while start < bytes.len()
            invariant
                start <= bytes@.len(),
                data_text@ + byte_lines(bytes@, start as int) == header + byte_lines(bytes@, 0),
            decreases bytes.len() - start,
        {
            let end = if bytes.len() - start > 32 {
                start + 32
            } else {
                bytes.len()
            };
            let ghost before = data_text@;
            data_text.append("    db ");
            data_text.append(byte_list(bytes, start, end).as_str());
            data_text.append("\n");
            assert(byte_lines(bytes@, start as int) == "    db "@ + bytes_text(bytes@, start as int, end as int)
                + "\n"@ + byte_lines(bytes@, end as int));
            assert(data_text@ + byte_lines(bytes@, end as int) =~= before + byte_lines(bytes@, start as int));
            start = end;
        }
        assert(data_text@ =~= header + byte_lines(bytes@, 0));
        data_text.append("    db 0\n");
        assert(data_text@ =~= strings_text(data_views(data@), i + 1));
        i = i + 1;
    }
    data_text
}

/// The `db` lines of `bytes` from `start` on, 32 bytes to a line.
pub open spec fn byte_lines(bytes: Seq<u8>, start: int) -> Seq<char>
    decreases bytes.len() - start,
{
    if start < 0 || start >= bytes.len() {
        seq![]
    } else {
        let end = if bytes.len() - start > 32 { start + 32 } else { bytes.len() as int };
        "    db "@ + bytes_text(bytes, start, end) + "\n"@ + byte_lines(bytes, end)
    }
}

/// The data section text of the first `n` string constants: each one's
/// label `ad_string_<index>`, its `db` lines and a closing zero byte.
pub open spec fn strings_text(strings: Seq<Seq<u8>>, n: int) -> Seq<char>
    decreases n,
{
    if n <= 0 {
        seq![]
    } else {
        strings_text(strings, n - 1) + "ad_string_"@ + nat_digits((n - 1) as nat) + ":\n"@ + byte_lines(
            strings[n - 1],
            0,
        ) + "    db 0\n"@
    }
}

/// The command-line entry `ad_cli_main`: it reads the arguments of `main`
/// with `ad_parse_arguments` into its frame, then calls `main` with them.
#[verifier::spinoff_prover]
fn cli_entry(function: &Function) -> (r: String)
    ensures
        r@ == cli_entry_text(function.name@, function.parameters as nat),
{
    proof {
        reveal(stack_change);
    }
    let count: u128 = function.parameters as u128;
    let output_size: u128 = if count > 1 {
        count * 16
    } else {
        16
    };
    let frame: u128 = (output_size + 63) / 16 * 16;
    let mut text = concat2("ad_cli_main:\n    push rbp\n    mov rbp, rsp\n    sub rsp, ", number(frame).as_str());
    text.append("\n    lea r8, [rel ad_argument_specs]\n    mov r9d, ");
    text.append(number(count).as_str());
    text.append("\n    lea rax, [rbp - ");
    text.append(number(output_size).as_str());
    text.append("]\n    mov [rsp + 32], rax\n    call ad_parse_arguments\n    test eax, eax\n    jnz ad_exit_error\n");
    if count != 0 {
        text.append("    sub rsp, ");
        text.append(number(count * 16).as_str());
        text.append("\n");
    }
    let copies = cli_argument_copies(output_size, count);
    text.append(copies.as_str());
    text.append("    call ad_fun_");
    text.append(function.name.as_str());
    text.append("\n");
    if count != 0 {
        text.append("    add rsp, ");
        text.append(number(count * 16).as_str());
        text.append("\n");
    }
    text.append("    mov rsp, rbp\n    pop rbp\n    ret\n");
    assert(text@ =~= cli_entry_text(function.name@, function.parameters as nat));
    text
}

/// `s` with every occurrence of `p` (taken left to right, without overlaps)
/// replaced by `t`; an empty `p` replaces nothing.
pub open spec fn replaced(s: Seq<char>, p: Seq<char>, t: Seq<char>) -> Seq<char>
    decreases s.len(),
{
    if s.len() == 0 {
        seq![]
    } else if p.len() > 0 && p.len() <= s.len() && s.take(p.len() as int) == p {
        t + replaced(s.skip(p.len() as int), p, t)
    } else {
        seq![s[0]] + replaced(s.skip(1), p, t)
    }
}

/// The text with every occurrence of `from` (taken left to right, without
/// overlaps) replaced by `to`.
#[verifier::spinoff_prover]
#[verifier::rlimit(80)]
fn replace_all(text: &str, from: &str, to: &str) -> (r: String)
    ensures
        r@ == replaced(text@, from@, to@),
{
    let chars = crate::text::chars_of(text);
    let pattern = crate::text::chars_of(from);
    let mut out = String::new();
    let mut i: usize = 0;
    assert(chars@.skip(0) =~= chars@);
    assert(out@ + replaced(chars@, pattern@, to@) =~= replaced(chars@, pattern@, to@));
    while i < chars.len()
        invariant
            i <= chars@.len(),
            chars@ == text@,
            pattern@ == from@,
            out@ + replaced(chars@.skip(i as int), pattern@, to@) == replaced(text@, from@, to@),
        decreases chars.len() - i,
    {
        let ghost rest = chars@.skip(i as int);
        let mut matches = pattern.len() > 0 && pattern.len() <= chars.len() - i;
        let mut k: usize = 0;
        while matches && k < pattern.len()
            invariant
                i < chars@.len(),
                k <= pattern@.len(),
                rest == chars@.skip(i as int),
                matches ==> pattern@.len() > 0 && pattern@.len() <= chars@.len() - i,
                matches ==> forall|j: int| 0 <= j < k ==> chars@[i + j] == pattern@[j],
                !matches ==> !(pattern@.len() > 0 && pattern@.len() <= rest.len()
                    && rest.take(pattern@.len() as int) == pattern@),
            decreases pattern.len() - k,
        {
            if chars[i + k] != pattern[k] {
                assert(rest.take(pattern@.len() as int)[k as int] == chars@[i + k]);
                matches = false;
            }
            k = k + 1;
        }
        if matches {
            assert(rest.take(pattern@.len() as int) =~= pattern@);
            assert(rest.skip(pattern@.len() as int) =~= chars@.skip(i + pattern@.len()));
            assert(replaced(rest, pattern@, to@) == to@ + replaced(rest.skip(pattern@.len() as int), pattern@, to@));
            let ghost before = out@;
            out.append(to);
            assert(before + replaced(rest, pattern@, to@) =~= out@ + replaced(
                chars@.skip(i + pattern@.len()),
                pattern@,
                to@,
            ));
            i = i + pattern.len();
        } else {
            assert(rest.skip(1) =~= chars@.skip(i + 1));
            assert(replaced(rest, pattern@, to@) == seq![rest[0]] + replaced(rest.skip(1), pattern@, to@));
            let ghost before = out@;
            push_char(&mut out, chars[i]);
            assert(before + replaced(rest, pattern@, to@) =~= out@ + replaced(
                chars@.skip(i + 1),
                pattern@,
                to@,
            ));
            i = i + 1;
        }
    }
    assert(chars@.skip(i as int) =~= Seq::<char>::empty());
    assert(out@ + replaced(chars@.skip(i as int), pattern@, to@) =~= out@);
    out
}

/// The decimal bytes `from..to` joined by `, `.
pub open spec fn bytes_text(bytes: Seq<u8>, from: int, to: int) -> Seq<char>
    decreases to - from,
{
    if to <= from {
        seq![]
    } else if to == from + 1 {
        nat_digits(bytes[from] as nat)
    } else {
        bytes_text(bytes, from, to - 1) + ", "@ + nat_digits(bytes[to - 1] as nat)
    }
}

/// The decimal bytes joined by `, `.
fn byte_list(bytes: &[u8], from: usize, to: usize) -> (r: String)
    requires
        from <= to <= bytes@.len(),
    ensures
        r@ == bytes_text(bytes@, from as int, to as int),
{
    let mut text = String::new();
    let mut i = from;
    while i < to
        invariant
            from <= i <= to,
            text@ == bytes_text(bytes@, from as int, i as int),
        decreases to - i,
    {
        if i > from {
            text.append(", ");
        }
        text.append(number(bytes[i] as u128).as_str());
        i = i + 1;
    }
    text
}

/// How many parameters of `main` the argument table describes: those that
/// have a name and a type.
pub open spec fn described_parameters(main: Function) -> int {
    let a = main.parameter_names@.len() as int;
    let b = if main.parameters < main.types@.len() { main.parameters as int } else { main.types@.len() as int };
    if a <= b { a } else { b }
}

/// The table entry of parameter `i`: the label of its name, the length of
/// the name in bytes (as a machine word), the identifier of its type, and
/// `1` for an optional.
pub open spec fn argument_row(main: Function, i: int) -> Seq<char> {
    "    dq ad_argument_name_"@ + nat_digits(i as nat) + "\n    dq "@ + nat_digits(
        (vstd::utf8::encode_utf8(main.parameter_names@[i]@).len() as usize) as nat,
    ) + "\n    dd "@ + nat_digits(main.types@[i].spec_id() as nat) + "\n    dd "@ + (if main.types@[i] is Optional {
        "1"@
    } else {
        "0"@
    }) + "\n"@
}

/// The entries of parameters `0..k`.
pub open spec fn argument_rows(main: Function, k: int) -> Seq<char>
    decreases k,
{
    if k <= 0 {
        seq![]
    } else {
        argument_rows(main, k - 1) + argument_row(main, k - 1)
    }
}

/// The name of parameter `i` as a label followed by its bytes.
pub open spec fn argument_name(main: Function, i: int) -> Seq<char> {
    let bytes = vstd::utf8::encode_utf8(main.parameter_names@[i]@);
    "ad_argument_name_"@ + nat_digits(i as nat) + ":\n    db "@ + bytes_text(bytes, 0, bytes.len() as int)
        + "\n"@
}

/// The names of parameters `0..k`.
pub open spec fn argument_names(main: Function, k: int) -> Seq<char>
    decreases k,
{
    if k <= 0 {
        seq![]
    } else {
        argument_names(main, k - 1) + argument_name(main, k - 1)
    }
}

/// The table of the command-line parameters of `main` that the runtime
/// reads: `ad_argument_specs` with one entry per parameter (a zero word when
/// there is none), then the bytes of each parameter's name.
pub open spec fn argument_table(main: Function) -> Seq<char> {
    "ad_argument_specs:\n"@ + (if main.parameters == 0 { "    dq 0\n"@ } else { seq![] })
        + argument_rows(main, described_parameters(main)) + argument_names(
        main,
        main.parameter_names@.len() as int,
    )
}

/// The table entry of parameter `index` (see `argument_row`).
fn argument_row_text(main: &Function, index: usize) -> (r: String)
    requires
        index < main.parameter_names@.len(),
        index < main.types@.len(),
    ensures
        r@ == argument_row(*main, index as int),
{
    let ty = main.types[index];
    let optional = match ty {
        Type::Optional(_) => "1",
        _ => "0",
    };
    let length = main.parameter_names[index].as_str().len();
    let mut row = owned("    dq ad_argument_name_");
    row.append(number(index as u128).as_str());
    row.append("\n    dq ");
    row.append(number(length as u128).as_str());
    row.append("\n    dd ");
    row.append(number(ty.id() as u128).as_str());
    row.append("\n    dd ");
    row.append(optional);
    row.append("\n");
    row
}

/// The name of parameter `index` (see `argument_name`).
fn argument_name_text(main: &Function, index: usize) -> (r: String)
    requires
        index < main.parameter_names@.len(),
    ensures
        r@ == argument_name(*main, index as int),
{
    let bytes = main.parameter_names[index].as_str().as_bytes();
    let mut text = owned("ad_argument_name_");
    text.append(number(index as u128).as_str());
    text.append(":\n    db ");
    text.append(byte_list(bytes, 0, bytes.len()).as_str());
    text.append("\n");
    text
}

/// The argument table of `main` (see `argument_table`).
fn argument_table_text(main: &Function) -> (r: String)
    ensures
        r@ == argument_table(*main),
{
    let mut out = owned("ad_argument_specs:\n");
    if main.parameters == 0 {
        out.append("    dq 0\n");
    }
    let ghost head = out@;
    let mut index: usize = 0;
    while index < main.parameter_names.len() && index < main.parameters && index < main.types.len()
        invariant
            index <= described_parameters(*main),
            out@ == head + argument_rows(*main, index as int),
        decreases main.parameter_names.len() - index,
    {
        let row = argument_row_text(main, index);
        out.append(row.as_str());
        index = index + 1;
    }
    let ghost middle = out@;
    let mut index: usize = 0;
    while index < main.parameter_names.len()
        invariant
            index <= main.parameter_names@.len(),
            out@ == middle + argument_names(*main, index as int),
        decreases main.parameter_names.len() - index,
    {
        let name = argument_name_text(main, index);
        out.append(name.as_str());
        index = index + 1;
    }
    proof {
        assert(out@ =~= argument_table(*main));
    }
    out
}

/// The runtime functions whose Linux versions have other names.
fn linux_names() -> (r: Vec<(&'static str, &'static str)>)
    ensures
        r@.map_values(|p: (&'static str, &'static str)| (p.0@, p.1@)) == linux_pairs(),
{
    let mut names: Vec<(&'static str, &'static str)> = Vec::new();
    names.push(("ExitProcess", "ad_linux_exit"));
    names.push(("ad_evaluate", "ad_linux_evaluate"));
    names.push(("ad_print", "ad_linux_print"));
    names.push(("ad_message", "ad_linux_message"));
    names.push(("ad_object_new", "ad_linux_object_new"));
    names.push(("ad_object_clone", "ad_linux_object_clone"));
    names.push(("ad_list_error", "ad_linux_list_error"));
    names.push(("ad_optional_error", "ad_linux_optional_error"));
    names.push(("ad_parse_arguments", "ad_linux_parse_arguments"));
    names.push(("ad_try_begin", "ad_linux_try_begin"));
    names.push(("ad_try_end", "ad_linux_try_end"));
    names.push(("ad_has_error", "ad_linux_has_error"));
    names.push(("ad_is_trying", "ad_linux_is_trying"));
    assert(names@.map_values(|p: (&'static str, &'static str)| (p.0@, p.1@)) =~= seq![
        ("ExitProcess"@, "ad_linux_exit"@),
        ("ad_evaluate"@, "ad_linux_evaluate"@),
        ("ad_print"@, "ad_linux_print"@),
        ("ad_message"@, "ad_linux_message"@),
        ("ad_object_new"@, "ad_linux_object_new"@),
        ("ad_object_clone"@, "ad_linux_object_clone"@),
        ("ad_list_error"@, "ad_linux_list_error"@),
        ("ad_optional_error"@, "ad_linux_optional_error"@),
        ("ad_parse_arguments"@, "ad_linux_parse_arguments"@),
        ("ad_try_begin"@, "ad_linux_try_begin"@),
        ("ad_try_end"@, "ad_linux_try_end"@),
        ("ad_has_error"@, "ad_linux_has_error"@),
        ("ad_is_trying"@, "ad_linux_is_trying"@),
    ]);
    names
}

/// Whether the function at `i` is the first one named `name`.
pub open spec fn first_named(functions: Seq<Function>, name: Seq<char>, i: int) -> bool {
    &&& 0 <= i < functions.len()
    &&& functions[i].name@ == name
    &&& forall|j: int| 0 <= j < i ==> functions[j].name@ != name
}

/// Whether a program has a function named `name`.
pub open spec fn has_function(program: Program, name: Seq<char>) -> bool {
    exists|i: int| 0 <= i < program.functions@.len() && (#[trigger] program.functions@[i]).name@ == name
}

/// The index of the first function named `name`.
pub fn find_function(program: &Program, name: &str) -> (r: Option<usize>)
    ensures
        r matches Some(i) ==> i < program.functions@.len() && program.functions@[i as int].name@
            == name@ && first_named(program.functions@, name@, i as int),
        r is None ==> !has_function(*program, name@),
{
    let mut i: usize = 0;
    while i < program.functions.len()
        invariant
            i <= program.functions@.len(),
            forall|j: int| 0 <= j < i ==> program.functions@[j].name@ != name@,
        decreases program.functions.len() - i,
    {
        if str_eq(program.functions[i].name.as_str(), name) {
            return Some(i);
        }
        i = i + 1;
    }
    None
}

/// The assembly of a program: the runtime support text, the command-line
/// entry that calls the function `entry`, every function, the string
/// constants, and the table of `entry`'s command-line arguments (name,
/// name length, type and whether it is optional). For Linux the runtime
/// calls of the generated code use the Linux runtime names.
#[verifier::spinoff_prover]
#[verifier::rlimit(100)]
pub fn assembly_entry(program: &Program, entry: &str, runtime: &str, linux: bool) -> (r: String)
    requires
        has_function(*program, entry@),
    ensures
        runtime@.is_prefix_of(r@),
        exists|i: int|
            #![trigger program.functions@[i]]
            first_named(program.functions@, entry@, i) && argument_table(program.functions@[i]).is_suffix_of(r@),
        exists|i: int, frames: Seq<nat>, bodies: Seq<Seq<char>>, strings: Seq<Seq<u8>>|
            first_named(program.functions@, entry@, i) && #[trigger] assembled(
                r@,
                runtime@,
                program.functions@,
                i,
                frames,
                bodies,
                strings,
                linux,
            ),
{
    let mut generator = Generator {
        text: String::new(),
        data: Vec::new(),
        next_slot: 0,
        max_slot: 0,
        class_sizes: program.class_sizes.clone(),
        classes: program.classes.clone(),
        next_label: 0,
        loop_stack: Vec::new(),
        error_targets: Vec::new(),
    };
    let main_index = match find_function(program, entry) {
        Some(i) => i,
        None => {
            return owned(runtime);
        },
    };
    let main = &program.functions[main_index];
    let entry_text = cli_entry(main);
    generator.emit(entry_text.as_str());
    let ghost entry_code = generator.text@;
    let ghost mut frames: Seq<nat> = seq![];
    let ghost mut bodies: Seq<Seq<char>> = seq![];
    let mut f: usize = 0;
    while f < program.functions.len()
        invariant
            f <= program.functions@.len(),
            frames.len() == f,
            bodies.len() == f,
            generator.text@ == entry_code + functions_code(program.functions@, frames, bodies, f as int),
            forall|k: int| 0 <= k < f ==> function_layout(#[trigger] program.functions@[k], frames[k], bodies[k]),
            generator.loop_stack@ == Seq::<(String, String)>::empty(),
        decreases program.functions.len() - f,
    {
        let ghost before = generator.text@;
        let ghost old_frames = frames;
        let ghost old_bodies = bodies;
        generator.function(&program.functions[f]);
        proof {
            let function = program.functions@[f as int];
            let (slots, codes) = choose|slots: nat, codes: Seq<Seq<char>>|
                slots >= function.types@.len() && generator.text@ == before + #[trigger] function_code(
                    function.name@,
                    frame_size(slots),
                    parameter_copies(function.parameters as nat) + joined(codes),
                    function.result,
                ) && instructions_code(function.instructions@, seq![], function.name@, codes);
            let frame = frame_size(slots);
            let body = parameter_copies(function.parameters as nat) + joined(codes);
            assert(function_layout(function, frame, body));
            frames = frames.push(frame);
            bodies = bodies.push(body);
            assert forall|k: int| 0 <= k < f + 1 implies function_layout(
                #[trigger] program.functions@[k],
                frames[k],
                bodies[k],
            ) by {
                if k < f {
                    assert(frames[k] == old_frames[k]);
                    assert(bodies[k] == old_bodies[k]);
                }
            }
            lemma_functions_code_prefix(program.functions@, old_frames, old_bodies, frames, bodies, f as int);
        }
        f = f + 1;
    }
    generator.emit("section .rdata");
    let data = generator.data;
    let mut out = generator.text;
    let data_text = data_section(&data);
    out.append(data_text.as_str());
    let ghost windows = out@;
    let mut generated = out;
    if linux {
        let names = linux_names();
        let mut n: usize = 0;
        while n < names.len()
            invariant
                n <= names@.len(),
                names@.map_values(|p: (&'static str, &'static str)| (p.0@, p.1@)) == linux_pairs(),
                generated@ == linux_renamed(windows, linux_pairs(), n as int),
            decreases names.len() - n,
        {
            let from = concat2("call ", names[n].0);
            let to = concat2("call ", names[n].1);
            proof {
                let views = names@.map_values(|p: (&'static str, &'static str)| (p.0@, p.1@));
                assert(views[n as int] == (names@[n as int].0@, names@[n as int].1@));
            }
            generated = replace_all(generated.as_str(), from.as_str(), to.as_str());
            n = n + 1;
        }
        proof {
            assert(names@.len() == linux_pairs().len()) by {
                assert(names@.map_values(|p: (&'static str, &'static str)| (p.0@, p.1@)).len() == names@.len());
            }
        }
    }
    let table = argument_table_text(main);
    let mut text = owned(runtime);
    text.append(generated.as_str());
    text.append(table.as_str());
    assert(runtime@ =~= text@.subrange(0, runtime@.len() as int));
    assert(table@ =~= text@.subrange(text@.len() - table@.len(), text@.len() as int));
    assert(first_named(program.functions@, entry@, main_index as int));
    proof {
        assert(entry_code =~= cli_entry_text(main.name@, main.parameters as nat) + "\n"@);
        let strings = data_views(data@);
        assert(windows =~= generated_code(program.functions@, main_index as int, frames, bodies, strings));
        assert(assembled(text@, runtime@, program.functions@, main_index as int, frames, bodies, strings, linux));
    }
    text
}

} // verus!
