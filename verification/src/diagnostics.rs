//! Warnings about a parsed program: code after `return` (W001), variables
//! and parameters that are never read (W002), and functions that `main`
//! cannot reach (W003).

#![verifier::loop_isolation(false)]

use crate::project::begins;
use crate::syntax::{position_text, Call, Expr, Function, Position, Program, Statement};
use crate::text::{concat2, concat3, owned, str_eq, string_views};
use vstd::prelude::*;

verus! {

/// The number of `false` entries.
pub open spec fn count_false(s: Seq<bool>) -> nat
    decreases s.len(),
{
    if s.len() == 0 {
        0
    } else {
        count_false(s.drop_last()) + if s.last() {
            0nat
        } else {
            1nat
        }
    }
}

/// Marking a `false` entry `true` leaves one `false` entry fewer.
proof fn lemma_count_false_mark(s: Seq<bool>, i: int)
    requires
        0 <= i < s.len(),
        !s[i],
    ensures
        count_false(s.update(i, true)) + 1 == count_false(s),
    decreases s.len(),
{
    let t = s.update(i, true);
    if i == s.len() - 1 {
        assert(t.drop_last() =~= s.drop_last());
    } else {
        assert(t.drop_last() =~= s.drop_last().update(i, true));
        lemma_count_false_mark(s.drop_last(), i);
    }
}

/// Whether an expression reads variable `x` (through operands of
/// arithmetic, negation, `+`, annotations and call arguments).
pub open spec fn expr_reads(e: Expr, x: usize) -> bool
    decreases e,
{
    match e {
        Expr::Variable(slot) => slot == x,
        Expr::Call(call) => call_reads(call, x),
        Expr::Binary(_, a, b) => expr_reads(*a, x) || expr_reads(*b, x),
        Expr::Negate(inner) => expr_reads(*inner, x),
        Expr::Positive(inner) => expr_reads(*inner, x),
        Expr::Annotated(inner, _) => expr_reads(*inner, x),
        _ => false,
    }
}

/// Whether a call's arguments read variable `x`.
pub open spec fn call_reads(call: Call, x: usize) -> bool
    decreases call,
{
    arguments_read(call.arguments@, x)
}

/// Whether any of the expressions reads variable `x`.
pub open spec fn arguments_read(arguments: Seq<Expr>, x: usize) -> bool
    decreases arguments,
{
    if arguments.len() == 0 {
        false
    } else {
        arguments_read(arguments.subrange(0, arguments.len() - 1), x) || expr_reads(arguments[arguments.len() - 1], x)
    }
}

/// Whether an expression calls the function named `name` (the same places
/// as `expr_reads`).
pub open spec fn expr_calls(e: Expr, name: Seq<char>) -> bool
    decreases e,
{
    match e {
        Expr::Call(call) => call_calls(call, name),
        Expr::Binary(_, a, b) => expr_calls(*a, name) || expr_calls(*b, name),
        Expr::Negate(inner) => expr_calls(*inner, name),
        Expr::Positive(inner) => expr_calls(*inner, name),
        Expr::Annotated(inner, _) => expr_calls(*inner, name),
        _ => false,
    }
}

/// Whether a call names `name` or its arguments call it.
pub open spec fn call_calls(call: Call, name: Seq<char>) -> bool
    decreases call,
{
    call.name@ == name || arguments_call(call.arguments@, name)
}

/// Whether any of the expressions calls `name`.
pub open spec fn arguments_call(arguments: Seq<Expr>, name: Seq<char>) -> bool
    decreases arguments,
{
    if arguments.len() == 0 {
        false
    } else {
        arguments_call(arguments.subrange(0, arguments.len() - 1), name) || expr_calls(arguments[arguments.len() - 1], name)
    }
}

/// Whether `set` holds `value`.
fn holds(set: &Vec<usize>, value: usize) -> (r: bool)
    ensures
        r == set@.contains(value),
{
    let mut i: usize = 0;
    while i < set.len()
        invariant
            i <= set@.len(),
            forall|j: int| 0 <= j < i ==> set@[j] != value,
        decreases set.len() - i,
    {
        if set[i] == value {
            return true;
        }
        i = i + 1;
    }
    false
}

/// Adds `value` to `set` unless it is there.
fn insert_slot(set: &mut Vec<usize>, value: usize)
    ensures
        final(set)@.contains(value),
        forall|x: usize| #[trigger] final(set)@.contains(x) <==> old(set)@.contains(x) || x == value,
{
    if !holds(set, value) {
        let ghost before = set@;
        set.push(value);
        assert(set@ =~= before.push(value));
        assert(set@[set@.len() - 1] == value);
        assert forall|x: usize| #[trigger] set@.contains(x) <==> before.contains(x) || x == value by {
            if set@.contains(x) {
                let q = choose|q: int| 0 <= q < set@.len() && set@[q] == x;
                if q < before.len() {
                    assert(before[q] == x);
                }
            }
            if before.contains(x) {
                let q = choose|q: int| 0 <= q < before.len() && before[q] == x;
                assert(set@[q] == x);
            }
        }
    }
}

/// Adds `name` to `names` unless it is there.
fn add_name(names: &mut Vec<String>, name: &String)
    ensures
        forall|x: Seq<char>| #[trigger] string_views(final(names)@).contains(x)
            <==> string_views(old(names)@).contains(x) || x == name@,
{
    let ghost before = string_views(names@);
    let mut i: usize = 0;
    while i < names.len()
        invariant
            i <= names@.len(),
            before == string_views(names@),
            forall|j: int| 0 <= j < i ==> names@[j]@ != name@,
        decreases names.len() - i,
    {
        if str_eq(names[i].as_str(), name.as_str()) {
            assert(before[i as int] == name@);
            return;
        }
        i = i + 1;
    }
    names.push(name.clone());
    assert(string_views(names@) =~= before.push(name@));
    assert forall|x: Seq<char>| #[trigger] string_views(names@).contains(x) <==> before.contains(x) || x == name@ by {
        let after = string_views(names@);
        assert(after[after.len() - 1] == name@);
        if after.contains(x) {
            let q = choose|q: int| 0 <= q < after.len() && after[q] == x;
            if q < before.len() {
                assert(before[q] == x);
            }
        }
        if before.contains(x) {
            let q = choose|q: int| 0 <= q < before.len() && before[q] == x;
            assert(after[q] == x);
        }
    }
}

/// Records the variables that an expression reads and the functions it
/// calls (through operands of arithmetic, negation, `+`, annotations and
/// call arguments).
fn visit(expr: &Expr, reads: &mut Vec<usize>, calls: &mut Vec<String>)
    ensures
        forall|x: usize| #[trigger] final(reads)@.contains(x) <==> old(reads)@.contains(x) || expr_reads(*expr, x),
        forall|x: Seq<char>| #[trigger] string_views(final(calls)@).contains(x)
            <==> string_views(old(calls)@).contains(x) || expr_calls(*expr, x),
    decreases expr,
{
    match expr {
        Expr::Variable(slot) => insert_slot(reads, *slot),
        Expr::Call(call) => visit_call(call, reads, calls),
        Expr::Binary(_, a, b) => {
            visit(a, reads, calls);
            visit(b, reads, calls);
        },
        Expr::Negate(inner) => visit(inner, reads, calls),
        Expr::Positive(inner) => visit(inner, reads, calls),
        Expr::Annotated(inner, _) => visit(inner, reads, calls),
        _ => {},
    }
}

/// Records a call and what its arguments read and call.
fn visit_call(call: &Call, reads: &mut Vec<usize>, calls: &mut Vec<String>)
    ensures
        forall|x: usize| #[trigger] final(reads)@.contains(x) <==> old(reads)@.contains(x) || call_reads(*call, x),
        forall|x: Seq<char>| #[trigger] string_views(final(calls)@).contains(x)
            <==> string_views(old(calls)@).contains(x) || call_calls(*call, x),
    decreases call,
{
    let ghost reads0 = reads@;
    let ghost calls0 = string_views(calls@);
    add_name(calls, &call.name);
    let ghost arguments = call.arguments@;
    let mut i: usize = 0;
    assert(arguments.subrange(0, 0) =~= Seq::<Expr>::empty());
    while i < call.arguments.len()
        invariant
            arguments == call.arguments@,
            i <= arguments.len(),
            forall|x: usize| #[trigger] reads@.contains(x) <==> reads0.contains(x)
                || arguments_read(arguments.subrange(0, i as int), x),
            forall|x: Seq<char>| #[trigger] string_views(calls@).contains(x) <==> calls0.contains(x) || x == call.name@
                || arguments_call(arguments.subrange(0, i as int), x),
        decreases call.arguments.len() - i,
    {
        proof {
            let next = arguments.subrange(0, i + 1);
            assert(next.subrange(0, next.len() - 1) =~= arguments.subrange(0, i as int));
            assert(next[next.len() - 1] == arguments[i as int]);
        }
        visit(&call.arguments[i], reads, calls);
        i = i + 1;
    }
    assert(arguments.subrange(0, arguments.len() as int) =~= arguments);
}

/// The position of the last name equal to `name`.
pub open spec fn last_index(names: Seq<Seq<char>>, name: Seq<char>) -> Option<int>
    decreases names.len(),
{
    if names.len() == 0 {
        None
    } else if names.last() == name {
        Some(names.len() - 1)
    } else {
        last_index(names.drop_last(), name)
    }
}

proof fn lemma_last_index_bounds(names: Seq<Seq<char>>, name: Seq<char>)
    ensures
        last_index(names, name) matches Some(i) ==> 0 <= i < names.len() && names[i] == name,
    decreases names.len(),
{
    if names.len() > 0 && names.last() != name {
        lemma_last_index_bounds(names.drop_last(), name);
    }
}

/// The index of the last function named `name`.
fn last_named(names: &Vec<String>, name: &str) -> (r: Option<usize>)
    ensures
        r matches Some(i) ==> i < names@.len(),
        match r {
            Some(i) => last_index(string_views(names@), name@) == Some(i as int),
            None => last_index(string_views(names@), name@) is None,
        },
{
    let ghost views = string_views(names@);
    let mut found: Option<usize> = None;
    let mut i: usize = 0;
    assert(views.take(0) =~= Seq::<Seq<char>>::empty());
    while i < names.len()
        invariant
            views == string_views(names@),
            i <= names@.len(),
            found matches Some(k) ==> k < names@.len(),
            match found {
                Some(k) => last_index(views.take(i as int), name@) == Some(k as int),
                None => last_index(views.take(i as int), name@) is None,
            },
        decreases names.len() - i,
    {
        proof {
            assert(views.take(i + 1).drop_last() =~= views.take(i as int));
            assert(views.take(i + 1).last() == names@[i as int]@);
        }
        if str_eq(names[i].as_str(), name) {
            found = Some(i);
        }
        i = i + 1;
    }
    assert(views.take(names@.len() as int) =~= views);
    found
}

/// A set of functions that holds every function that a function in it
/// calls (by the last function of each called name).
pub open spec fn closed(names: Seq<Seq<char>>, calls: Seq<Seq<Seq<char>>>, s: Set<int>) -> bool {
    forall|i: int, c: int|
        #![trigger s.contains(i), calls[i][c]]
        s.contains(i) && 0 <= i < calls.len() && 0 <= c < calls[i].len() && last_index(names, calls[i][c]) is Some
            ==> s.contains(last_index(names, calls[i][c]).unwrap())
}

/// Whether a set holds `main` (the last function of that name), if there is one.
pub open spec fn holds_main(names: Seq<Seq<char>>, s: Set<int>) -> bool {
    match last_index(names, "main"@) {
        Some(m) => s.contains(m),
        None => true,
    }
}

/// Whether `main` reaches function `i` through calls: `i` is in every
/// closed set of functions that holds `main`.
pub open spec fn reaches(names: Seq<Seq<char>>, calls: Seq<Seq<Seq<char>>>, i: int) -> bool {
    forall|s: Set<int>| closed(names, calls, s) && holds_main(names, s) ==> #[trigger] s.contains(i)
}

/// The call lists of the functions as plain values.
pub open spec fn call_views(calls: Seq<Vec<String>>) -> Seq<Seq<Seq<char>>> {
    calls.map_values(|v: Vec<String>| string_views(v@))
}

/// Whether every function that function `i` calls is marked.
pub open spec fn calls_marked(names: Seq<Seq<char>>, calls: Seq<Seq<Seq<char>>>, marked: Seq<bool>, i: int) -> bool {
    forall|c: int| 0 <= c < calls[i].len() && last_index(names, #[trigger] calls[i][c]) is Some
        ==> marked[last_index(names, calls[i][c]).unwrap()]
}

proof fn lemma_calls_marked_grow(names: Seq<Seq<char>>, calls: Seq<Seq<Seq<char>>>, before: Seq<bool>, after: Seq<bool>, i: int)
    requires
        calls_marked(names, calls, before, i),
        before.len() == after.len(),
        forall|j: int| 0 <= j < before.len() && before[j] ==> after[j],
        forall|c: int| 0 <= c < calls[i].len() && last_index(names, #[trigger] calls[i][c]) is Some
            ==> 0 <= last_index(names, calls[i][c]).unwrap() < before.len(),
    ensures
        calls_marked(names, calls, after, i),
{
}

/// Marks the functions that `main` reaches through calls: `reached[i]`
/// holds exactly for the functions that the (last) function named `main`
/// reaches, following the names in `calls[i]`.
fn reachable(names: &Vec<String>, calls: &Vec<Vec<String>>) -> (r: Vec<bool>)
    requires
        calls@.len() == names@.len(),
    ensures
        r@.len() == names@.len(),
        forall|i: int| 0 <= i < names@.len() ==> r@[i] == reaches(string_views(names@), call_views(calls@), i),
{
    let ghost nv = string_views(names@);
    let ghost cv = call_views(calls@);
    let n = names.len();
    let mut reached: Vec<bool> = Vec::new();
    let mut k: usize = 0;
    while k < n
        invariant
            reached@.len() == k,
            k <= n,
            forall|j: int| 0 <= j < k ==> !reached@[j],
        decreases n - k,
    {
        reached.push(false);
        k = k + 1;
    }
    let mut pending: Vec<usize> = Vec::new();
    proof {
        lemma_last_index_bounds(nv, "main"@);
        assert forall|x: Seq<char>| #[trigger] last_index(nv, x) is Some implies 0 <= last_index(nv, x).unwrap() < n by {
            lemma_last_index_bounds(nv, x);
        }
    }
    if let Some(main) = last_named(names, "main") {
        proof {
            lemma_count_false_mark(reached@, main as int);
            assert forall|s: Set<int>| closed(nv, cv, s) && holds_main(nv, s) implies #[trigger] s.contains(main as int) by {}
        }
        reached.set(main, true);
        pending.push(main);
        assert(pending@[0] == main);
        assert(pending@.contains(main));
    }
    while pending.len() > 0
        invariant
            nv == string_views(names@),
            cv == call_views(calls@),
            reached@.len() == n,
            calls@.len() == n,
            n == names@.len(),
            forall|p: int| 0 <= p < pending@.len() ==> #[trigger] pending@[p] < n && reached@[pending@[p] as int],
            pending@.no_duplicates(),
            forall|x: Seq<char>| #[trigger] last_index(nv, x) is Some ==> 0 <= last_index(nv, x).unwrap() < n,
            forall|i: int| 0 <= i < n && reached@[i] ==> reaches(nv, cv, i),
            forall|i: int| 0 <= i < n && reached@[i] && !pending@.contains(i as usize) ==> calls_marked(nv, cv, reached@, i),
            match last_index(nv, "main"@) {
                Some(m) => reached@[m],
                None => forall|i: int| 0 <= i < n ==> !reached@[i],
            },
        decreases count_false(reached@) + pending@.len(),
    {
        let ghost full = pending@;
        let current = pending.pop().unwrap();
        let ghost before = count_false(reached@) + pending@.len();
        assert(full =~= pending@.push(current));
        proof {
            assert forall|i: int| 0 <= i < n && i != current && reached@[i] && !pending@.contains(i as usize)
                implies calls_marked(nv, cv, reached@, i) by {
                if full.contains(i as usize) {
                    let q = choose|q: int| 0 <= q < full.len() && full[q] == i as usize;
                    if q < pending@.len() {
                        assert(pending@[q] == i as usize);
                    }
                }
            }
        }
        proof {
            assert(!pending@.contains(current)) by {
                let full = pending@.push(current);
                if pending@.contains(current) {
                    let q = choose|q: int| 0 <= q < pending@.len() && pending@[q] == current;
                    assert(full[q] == full[full.len() - 1]);
                }
            }
        }
        let called = &calls[current];
        assert(cv[current as int] == string_views(called@));
        let mut c: usize = 0;
        while c < called.len()
            invariant
                nv == string_views(names@),
                cv == call_views(calls@),
                cv[current as int] == string_views(called@),
                current < n,
                reached@[current as int],
                !pending@.contains(current),
                reached@.len() == n,
                c <= called@.len(),
                forall|p: int| 0 <= p < pending@.len() ==> #[trigger] pending@[p] < n && reached@[pending@[p] as int],
                pending@.no_duplicates(),
                count_false(reached@) + pending@.len() == before,
                forall|x: Seq<char>| #[trigger] last_index(nv, x) is Some ==> 0 <= last_index(nv, x).unwrap() < n,
                forall|i: int| 0 <= i < n && reached@[i] ==> reaches(nv, cv, i),
                forall|i: int| 0 <= i < n && i != current && reached@[i] && !pending@.contains(i as usize)
                    ==> calls_marked(nv, cv, reached@, i),
                forall|d: int| 0 <= d < c && last_index(nv, #[trigger] cv[current as int][d]) is Some
                    ==> reached@[last_index(nv, cv[current as int][d]).unwrap()],
                match last_index(nv, "main"@) {
                    Some(m) => reached@[m],
                    None => forall|i: int| 0 <= i < n ==> !reached@[i],
                },
            decreases called.len() - c,
        {
            assert(cv[current as int][c as int] == called@[c as int]@);
            if let Some(target) = last_named(names, called[c].as_str()) {
                if !reached[target] {
                    proof {
                        lemma_count_false_mark(reached@, target as int);
                        assert forall|s: Set<int>| closed(nv, cv, s) && holds_main(nv, s) implies #[trigger] s.contains(target as int) by {
                            assert(s.contains(current as int));
                            assert(cv[current as int][c as int] == called@[c as int]@);
                        }
                        assert(!pending@.contains(target));
                    }
                    let ghost old_reached = reached@;
                    let ghost old_pending = pending@;
                    reached.set(target, true);
                    pending.push(target);
                    proof {
                        assert(pending@ =~= old_pending.push(target));
                        assert(pending@[pending@.len() - 1] == target);
                        assert forall|i: int| 0 <= i < n && i != current && reached@[i] && !pending@.contains(i as usize)
                            implies calls_marked(nv, cv, reached@, i) by {
                            assert(pending@.contains(target));
                            assert(i != target as int);
                            assert(old_reached[i]);
                            if old_pending.contains(i as usize) {
                                let q = choose|q: int| 0 <= q < old_pending.len() && old_pending[q] == i as usize;
                                assert(pending@[q] == i as usize);
                            }
                            assert forall|d: int| 0 <= d < cv[i].len() && last_index(nv, #[trigger] cv[i][d]) is Some
                                implies 0 <= last_index(nv, cv[i][d]).unwrap() < old_reached.len() by {
                                lemma_last_index_bounds(nv, cv[i][d]);
                            }
                            lemma_calls_marked_grow(nv, cv, old_reached, reached@, i);
                        }
                        assert forall|p: int| 0 <= p < pending@.len() implies #[trigger] pending@[p] < n && reached@[pending@[p] as int] by {
                            if p < old_pending.len() {
                                assert(pending@[p] == old_pending[p]);
                            }
                        }
                    }
                }
            }
            c = c + 1;
        }
    }
    proof {
        let set = Set::new(|i: int| 0 <= i < n && reached@[i]);
        assert forall|i: int, c: int|
            #![trigger set.contains(i), cv[i][c]]
            set.contains(i) && 0 <= i < cv.len() && 0 <= c < cv[i].len() && last_index(nv, cv[i][c]) is Some
                implies set.contains(last_index(nv, cv[i][c]).unwrap()) by {
            assert(!pending@.contains(i as usize));
            assert(calls_marked(nv, cv, reached@, i));
            lemma_last_index_bounds(nv, cv[i][c]);
        }
        assert(closed(nv, cv, set));
        lemma_last_index_bounds(nv, "main"@);
        assert(holds_main(nv, set));
        assert forall|i: int| 0 <= i < names@.len() implies reached@[i] == reaches(nv, cv, i) by {
            if reaches(nv, cv, i) {
                assert(set.contains(i));
            }
        }
    }
    reached
}

/// The position of the first `return` among statements `k..n`, or `n`.
pub open spec fn first_return(statements: Seq<Statement>, k: int, n: int) -> int
    decreases n - k,
{
    if k >= n {
        n
    } else if statements[k] is Return {
        k
    } else {
        first_return(statements, k + 1, n)
    }
}

proof fn lemma_first_return(statements: Seq<Statement>, k: int, n: int)
    requires
        0 <= k <= n,
    ensures
        k <= first_return(statements, k, n) <= n,
        first_return(statements, k, n) < n ==> statements[first_return(statements, k, n)] is Return,
        forall|j: int| k <= j < first_return(statements, k, n) ==> !(statements[j] is Return),
    decreases n - k,
{
    if k < n && !(statements[k] is Return) {
        lemma_first_return(statements, k + 1, n);
    }
}

/// The statements that the checks look at: as many as there are positions.
pub open spec fn checked_count(f: Function) -> int {
    if f.statements@.len() <= f.positions@.len() { f.statements@.len() as int } else { f.positions@.len() as int }
}

/// The statements before the first `return`: the ones whose reads and calls
/// count.
pub open spec fn live_end(f: Function) -> int {
    first_return(f.statements@, 0, checked_count(f))
}

/// Whether a statement reads variable `x`.
pub open spec fn statement_reads(s: Statement, x: usize) -> bool {
    match s {
        Statement::Assign(_, e) => expr_reads(e, x),
        Statement::Clamp(slot, low, high) => slot == x || expr_reads(low, x) || expr_reads(high, x),
        Statement::Print(e, _) => expr_reads(e, x),
        Statement::Call(call) => call_reads(call, x),
        _ => false,
    }
}

/// Whether a statement calls the function named `name`.
pub open spec fn statement_calls(s: Statement, name: Seq<char>) -> bool {
    match s {
        Statement::Assign(_, e) => expr_calls(e, name),
        Statement::Clamp(_, low, high) => expr_calls(low, name) || expr_calls(high, name),
        Statement::Print(e, _) => expr_calls(e, name),
        Statement::Call(call) => call_calls(call, name),
        _ => false,
    }
}

/// Whether a statement assigns variable `x`.
pub open spec fn statement_declares(s: Statement, x: usize) -> bool {
    s matches Statement::Assign(slot, _) && slot == x
}

/// Whether a function reads variable `x` before its first `return`; a named
/// result counts as read.
pub open spec fn reads_slot(f: Function, x: usize) -> bool {
    ||| exists|k: int| 0 <= k < live_end(f) && #[trigger] statement_reads(f.statements@[k], x)
    ||| f.result == Some(x)
}

/// Whether `x` is a parameter or a variable assigned before the first
/// `return`.
pub open spec fn declares_slot(f: Function, x: usize) -> bool {
    ||| x < f.parameters
    ||| exists|k: int| 0 <= k < live_end(f) && #[trigger] statement_declares(f.statements@[k], x)
}

/// Whether a function calls `name` before its first `return`.
pub open spec fn function_calls(f: Function, name: Seq<char>) -> bool {
    exists|k: int| 0 <= k < live_end(f) && #[trigger] statement_calls(f.statements@[k], name)
}

/// W001: the first statement after a `return`, if there is one.
pub open spec fn unreachable_lines(f: Function) -> Seq<Seq<char>> {
    if live_end(f) + 1 < checked_count(f) {
        seq![position_text(f.positions@[live_end(f) + 1], "warning[W001]: unreachable code after return"@)]
    } else {
        seq![]
    }
}

/// W002 for the variables and parameters before slot `k` that are declared
/// and never read (names starting with `_` are exempt).
pub open spec fn unused_lines(f: Function, k: int) -> Seq<Seq<char>>
    decreases k,
{
    if k <= 0 {
        seq![]
    } else {
        let slot = (k - 1) as usize;
        let (name, position) = f.bindings@[k - 1];
        unused_lines(f, k - 1) + if declares_slot(f, slot) && !reads_slot(f, slot) && !begins(name@, "_"@) {
            seq![position_text(position, "warning[W002]: unused "@ + (if slot < f.parameters { "parameter"@ } else { "variable"@ })
                + " '"@ + name@ + "' in function '"@ + f.name@ + "'"@)]
        } else {
            seq![]
        }
    }
}

/// The warnings about one function's body, in order.
pub open spec fn function_warnings(f: Function) -> Seq<Seq<char>> {
    unreachable_lines(f) + unused_lines(f, f.bindings@.len() as int)
}

/// The body warnings of the functions in order.
pub open spec fn body_warnings(fs: Seq<Function>) -> Seq<Seq<char>>
    decreases fs.len(),
{
    if fs.len() == 0 {
        seq![]
    } else {
        body_warnings(fs.drop_last()) + function_warnings(fs.last())
    }
}

/// The names of the functions in order.
pub open spec fn function_names(fs: Seq<Function>) -> Seq<Seq<char>> {
    fs.map_values(|f: Function| f.name@)
}

/// A set of functions that holds every function that a function in it
/// calls (by the last function of each called name).
pub open spec fn program_closed(fs: Seq<Function>, s: Set<int>) -> bool {
    forall|i: int, name: Seq<char>|
        #![trigger s.contains(i), function_calls(fs[i], name)]
        s.contains(i) && 0 <= i < fs.len() && function_calls(fs[i], name) && last_index(function_names(fs), name) is Some
            ==> s.contains(last_index(function_names(fs), name).unwrap())
}

/// Whether `main` reaches function `i`: `i` is in every closed set of
/// functions that holds `main`.
pub open spec fn program_reaches(fs: Seq<Function>, i: int) -> bool {
    forall|s: Set<int>| program_closed(fs, s) && holds_main(function_names(fs), s) ==> #[trigger] s.contains(i)
}

/// Whether the function that the name of function `f` stands for is
/// reached from `main`.
pub open spec fn function_reached(fs: Seq<Function>, f: int) -> bool {
    match last_index(function_names(fs), fs[f].name@) {
        Some(t) => program_reaches(fs, t),
        None => false,
    }
}

/// W003 for the functions before position `k` that `main` does not reach
/// (names starting with `_` are exempt).
pub open spec fn unreached_lines(fs: Seq<Function>, k: int) -> Seq<Seq<char>>
    decreases k,
{
    if k <= 0 {
        seq![]
    } else {
        unreached_lines(fs, k - 1) + if !function_reached(fs, k - 1) && !begins(fs[k - 1].name@, "_"@) {
            seq![position_text(fs[k - 1].position, "warning[W003]: unused function '"@ + fs[k - 1].name@
                + "' (not reachable from main)"@)]
        } else {
            seq![]
        }
    }
}

/// All warnings of a program: each function's body warnings in order, then
/// the functions that `main` does not reach.
pub open spec fn program_warnings(fs: Seq<Function>) -> Seq<Seq<char>> {
    body_warnings(fs) + unreached_lines(fs, fs.len() as int)
}

proof fn lemma_reaches_program(fs: Seq<Function>, cv: Seq<Seq<Seq<char>>>, i: int)
    requires
        cv.len() == fs.len(),
        forall|j: int, x: Seq<char>| 0 <= j < fs.len() ==> (#[trigger] cv[j].contains(x) <==> function_calls(fs[j], x)),
    ensures
        reaches(function_names(fs), cv, i) == program_reaches(fs, i),
{
    let nv = function_names(fs);
    assert forall|s: Set<int>| closed(nv, cv, s) <==> program_closed(fs, s) by {
        if closed(nv, cv, s) {
            assert forall|j: int, name: Seq<char>|
                #![trigger s.contains(j), function_calls(fs[j], name)]
                s.contains(j) && 0 <= j < fs.len() && function_calls(fs[j], name) && last_index(nv, name) is Some
                    implies s.contains(last_index(nv, name).unwrap()) by {
                assert(cv[j].contains(name));
                let c = choose|c: int| 0 <= c < cv[j].len() && cv[j][c] == name;
                assert(s.contains(j) && cv[j][c] == name);
            }
        }
        if program_closed(fs, s) {
            assert forall|j: int, c: int|
                #![trigger s.contains(j), cv[j][c]]
                s.contains(j) && 0 <= j < cv.len() && 0 <= c < cv[j].len() && last_index(nv, cv[j][c]) is Some
                    implies s.contains(last_index(nv, cv[j][c]).unwrap()) by {
                assert(cv[j].contains(cv[j][c]));
                assert(function_calls(fs[j], cv[j][c]));
            }
        }
    }
}

/// The body warnings of one function and the names it calls.
fn function_report(function: &Function) -> (r: (Vec<String>, Vec<String>))
    ensures
        string_views(r.0@) == function_warnings(*function),
        forall|x: Seq<char>| #[trigger] string_views(r.1@).contains(x) <==> function_calls(*function, x),
{
    let ghost f = *function;
    let ghost n = checked_count(f);
    let ghost end = live_end(f);
    proof {
        lemma_first_return(f.statements@, 0, n);
    }
    let mut lines: Vec<String> = Vec::new();
    let mut reads: Vec<usize> = Vec::new();
    let mut declared: Vec<usize> = Vec::new();
    let mut p: usize = 0;
    while p < function.parameters
        invariant
            p <= function.parameters,
            forall|x: usize| #[trigger] declared@.contains(x) <==> x < p,
        decreases function.parameters - p,
    {
        insert_slot(&mut declared, p);
        p = p + 1;
    }
    let mut calls: Vec<String> = Vec::new();
    let mut returned = false;
    let mut warned_unreachable = false;
    let mut s: usize = 0;
    assert(string_views(lines@) =~= Seq::<Seq<char>>::empty());
    while s < function.statements.len() && s < function.positions.len()
        invariant
            f == *function,
            n == checked_count(f),
            end == live_end(f),
            0 <= end <= n,
            end < n ==> f.statements@[end] is Return,
            forall|j: int| 0 <= j < end ==> !(f.statements@[j] is Return),
            s <= n,
            returned == (end < s),
            warned_unreachable == (end + 1 < s),
            string_views(lines@) == if end + 1 < s {
                seq![position_text(f.positions@[end + 1], "warning[W001]: unreachable code after return"@)]
            } else {
                seq![]
            },
            forall|x: usize| #[trigger] reads@.contains(x) <==> exists|k: int|
                0 <= k < s && k < end && #[trigger] statement_reads(f.statements@[k], x),
            forall|x: usize| #[trigger] declared@.contains(x) <==> x < f.parameters || exists|k: int|
                0 <= k < s && k < end && #[trigger] statement_declares(f.statements@[k], x),
            forall|x: Seq<char>| #[trigger] string_views(calls@).contains(x) <==> exists|k: int|
                0 <= k < s && k < end && #[trigger] statement_calls(f.statements@[k], x),
        decreases function.statements.len() - s,
    {
        let ghost reads0 = reads@;
        let ghost declared0 = declared@;
        let ghost calls0 = string_views(calls@);
        if returned {
            if !warned_unreachable {
                let line = function.positions[s].error("warning[W001]: unreachable code after return");
                lines.push(line);
                assert(string_views(lines@) =~= seq![position_text(f.positions@[end + 1], "warning[W001]: unreachable code after return"@)]);
                warned_unreachable = true;
            }
        } else {
            match &function.statements[s] {
                Statement::Assign(slot, expr) => {
                    insert_slot(&mut declared, *slot);
                    visit(expr, &mut reads, &mut calls);
                },
                Statement::Clamp(slot, low, high) => {
                    insert_slot(&mut reads, *slot);
                    visit(low, &mut reads, &mut calls);
                    visit(high, &mut reads, &mut calls);
                },
                Statement::Print(expr, _) => visit(expr, &mut reads, &mut calls),
                Statement::Call(call) => visit_call(call, &mut reads, &mut calls),
                Statement::Return => {
                    returned = true;
                },
                _ => {},
            }
        }
        proof {
            let st = f.statements@[s as int];
            assert forall|x: usize| #[trigger] reads@.contains(x) <==> exists|k: int|
                0 <= k < s + 1 && k < end && #[trigger] statement_reads(f.statements@[k], x) by {
                if reads@.contains(x) && !reads0.contains(x) {
                    assert(0 <= s < s + 1 && s < end && statement_reads(f.statements@[s as int], x));
                }
                if exists|k: int| 0 <= k < s + 1 && k < end && #[trigger] statement_reads(f.statements@[k], x) {
                    let k = choose|k: int| 0 <= k < s + 1 && k < end && #[trigger] statement_reads(f.statements@[k], x);
                    if k < s {
                        assert(reads0.contains(x));
                    }
                }
            }
            assert forall|x: usize| #[trigger] declared@.contains(x) <==> x < f.parameters || exists|k: int|
                0 <= k < s + 1 && k < end && #[trigger] statement_declares(f.statements@[k], x) by {
                if declared@.contains(x) && !declared0.contains(x) {
                    assert(0 <= s < s + 1 && s < end && statement_declares(f.statements@[s as int], x));
                }
                if exists|k: int| 0 <= k < s + 1 && k < end && #[trigger] statement_declares(f.statements@[k], x) {
                    let k = choose|k: int| 0 <= k < s + 1 && k < end && #[trigger] statement_declares(f.statements@[k], x);
                    if k < s {
                        assert(declared0.contains(x));
                    }
                }
            }
            assert forall|x: Seq<char>| #[trigger] string_views(calls@).contains(x) <==> exists|k: int|
                0 <= k < s + 1 && k < end && #[trigger] statement_calls(f.statements@[k], x) by {
                if string_views(calls@).contains(x) && !calls0.contains(x) {
                    assert(0 <= s < s + 1 && s < end && statement_calls(f.statements@[s as int], x));
                }
                if exists|k: int| 0 <= k < s + 1 && k < end && #[trigger] statement_calls(f.statements@[k], x) {
                    let k = choose|k: int| 0 <= k < s + 1 && k < end && #[trigger] statement_calls(f.statements@[k], x);
                    if k < s {
                        assert(calls0.contains(x));
                    }
                }
            }
        }
        s = s + 1;
    }
    proof {
        assert(s == n);
    }
    if let Some(result) = function.result {
        insert_slot(&mut reads, result);
    }
    assert(string_views(lines@) == unreachable_lines(f));
    let ghost head = string_views(lines@);
    let mut slot: usize = 0;
    assert(unused_lines(f, 0) =~= Seq::<Seq<char>>::empty());
    while slot < function.bindings.len()
        invariant
            f == *function,
            slot <= f.bindings@.len(),
            string_views(lines@) == head + unused_lines(f, slot as int),
            forall|x: usize| #[trigger] reads@.contains(x) <==> reads_slot(f, x),
            forall|x: usize| #[trigger] declared@.contains(x) <==> declares_slot(f, x),
        decreases function.bindings.len() - slot,
    {
        let (name, position) = &function.bindings[slot];
        proof {
            reveal_strlit("_");
        }
        let exempt = crate::text::starts_with(name.as_str(), "_");
        let ghost before = string_views(lines@);
        if holds(&declared, slot) && !holds(&reads, slot) && !exempt {
            let kind = if slot < function.parameters {
                "parameter"
            } else {
                "variable"
            };
            let mut message = concat3("warning[W002]: unused ", kind, " '");
            message.append(name.as_str());
            message.append("' in function '");
            message.append(function.name.as_str());
            message.append("'");
            lines.push(position.error(message.as_str()));
            assert(string_views(lines@) =~= before.push(lines@.last()@));
        }
        assert(string_views(lines@) =~= head + unused_lines(f, slot + 1));
        slot = slot + 1;
    }
    (lines, calls)
}

/// The warnings of a program, in order: for each function, W001 at the
/// first statement after a `return` and W002 for each variable or parameter
/// that is assigned but never read (names starting with `_` are exempt; a
/// named result counts as read); then W003 for each function that `main`
/// does not reach (names starting with `_` are exempt).
pub fn warnings(program: &Program) -> (r: Vec<String>)
    ensures
        string_views(r@) == program_warnings(program.functions@),
{
    let ghost fs = program.functions@;
    let mut warnings: Vec<String> = Vec::new();
    let mut names: Vec<String> = Vec::new();
    let mut graph: Vec<Vec<String>> = Vec::new();
    let mut f: usize = 0;
    assert(fs.take(0) =~= Seq::<Function>::empty());
    assert(string_views(warnings@) =~= Seq::<Seq<char>>::empty());
    while f < program.functions.len()
        invariant
            fs == program.functions@,
            f <= fs.len(),
            names@.len() == f,
            graph@.len() == f,
            string_views(warnings@) == body_warnings(fs.take(f as int)),
            string_views(names@) == function_names(fs.take(f as int)),
            forall|j: int, x: Seq<char>| 0 <= j < f ==> (#[trigger] call_views(graph@)[j].contains(x) <==> function_calls(fs[j], x)),
        decreases program.functions.len() - f,
    {
        let function = &program.functions[f];
        let (lines, calls) = function_report(function);
        let ghost before = string_views(warnings@);
        let mut l: usize = 0;
        while l < lines.len()
            invariant
                l <= lines@.len(),
                string_views(warnings@) == before + string_views(lines@).take(l as int),
            decreases lines.len() - l,
        {
            let ghost prior = string_views(warnings@);
            warnings.push(owned(lines[l].as_str()));
            assert(string_views(warnings@) =~= prior.push(lines@[l as int]@));
            assert(string_views(lines@).take(l + 1) =~= string_views(lines@).take(l as int).push(lines@[l as int]@));
            l = l + 1;
        }
        proof {
            assert(string_views(lines@).take(lines@.len() as int) =~= string_views(lines@));
            assert(fs.take(f + 1).drop_last() =~= fs.take(f as int));
            assert(fs.take(f + 1).last() == fs[f as int]);
        }
        let ghost names0 = string_views(names@);
        let ghost graph0 = graph@;
        names.push(owned(function.name.as_str()));
        graph.push(calls);
        proof {
            assert(string_views(names@) =~= names0.push(fs[f as int].name@));
            assert(function_names(fs.take(f + 1)) =~= function_names(fs.take(f as int)).push(fs[f as int].name@));
            assert forall|j: int, x: Seq<char>| 0 <= j < f + 1 implies (#[trigger] call_views(graph@)[j].contains(x) <==> function_calls(fs[j], x)) by {
                if j < f {
                    assert(graph@[j] == graph0[j]);
                    assert(call_views(graph@)[j] == call_views(graph0)[j]);
                } else {
                    assert(call_views(graph@)[j] == string_views(calls@));
                }
            }
        }
        f = f + 1;
    }
    proof {
        assert(fs.take(fs.len() as int) =~= fs);
    }
    let ghost nv = string_views(names@);
    let ghost cv = call_views(graph@);
    let reached = reachable(&names, &graph);
    let ghost head = string_views(warnings@);
    let mut f: usize = 0;
    assert(unreached_lines(fs, 0) =~= Seq::<Seq<char>>::empty());
    while f < program.functions.len()
        invariant
            fs == program.functions@,
            nv == string_views(names@),
            nv == function_names(fs),
            cv == call_views(graph@),
            cv.len() == fs.len(),
            reached@.len() == names@.len(),
            names@.len() == fs.len(),
            forall|j: int, x: Seq<char>| 0 <= j < fs.len() ==> (#[trigger] cv[j].contains(x) <==> function_calls(fs[j], x)),
            forall|i: int| 0 <= i < names@.len() ==> reached@[i] == reaches(nv, cv, i),
            f <= fs.len(),
            string_views(warnings@) == head + unreached_lines(fs, f as int),
        decreases program.functions.len() - f,
    {
        let function = &program.functions[f];
        let found = last_named(&names, function.name.as_str());
        let is_reached = match found {
            Some(i) => i < reached.len() && reached[i],
            None => false,
        };
        proof {
            if let Some(i) = found {
                lemma_reaches_program(fs, cv, i as int);
            }
            assert(is_reached == function_reached(fs, f as int));
            reveal_strlit("_");
        }
        let ghost before = string_views(warnings@);
        if !is_reached && !crate::text::starts_with(function.name.as_str(), "_") {
            let message = concat3(
                "warning[W003]: unused function '",
                function.name.as_str(),
                "' (not reachable from main)",
            );
            warnings.push(function.position.error(message.as_str()));
            assert(string_views(warnings@) =~= before.push(warnings@.last()@));
        }
        assert(string_views(warnings@) =~= head + unreached_lines(fs, f + 1));
        f = f + 1;
    }
    warnings
}

proof fn lemma_last_index_found(names: Seq<Seq<char>>, name: Seq<char>, i: int)
    requires
        0 <= i < names.len(),
        names[i] == name,
    ensures
        last_index(names, name) is Some,
    decreases names.len(),
{
    if names.last() != name {
        lemma_last_index_found(names.drop_last(), name, i);
    }
}

/// `main` is reached from `main`: a function named `main` never gets the
/// unreachable-function warning.
pub proof fn lemma_main_is_reached(fs: Seq<Function>, f: int)
    requires
        0 <= f < fs.len(),
        fs[f].name@ == "main"@,
    ensures
        function_reached(fs, f),
{
    let names = function_names(fs);
    assert(names[f] == "main"@);
    lemma_last_index_found(names, "main"@, f);
    let m = last_index(names, "main"@).unwrap();
    assert forall|s: Set<int>| program_closed(fs, s) && holds_main(names, s) implies #[trigger] s.contains(m) by {}
}

/// A function that `main` calls directly (before any `return`) is reached,
/// so it never gets the unreachable-function warning.
pub proof fn lemma_called_from_main_is_reached(fs: Seq<Function>, main: int, f: int)
    requires
        0 <= main < fs.len(),
        0 <= f < fs.len(),
        last_index(function_names(fs), "main"@) == Some(main),
        function_calls(fs[main], fs[f].name@),
    ensures
        function_reached(fs, f),
{
    let names = function_names(fs);
    assert(names[f] == fs[f].name@);
    lemma_last_index_found(names, fs[f].name@, f);
    let t = last_index(names, fs[f].name@).unwrap();
    assert forall|s: Set<int>| program_closed(fs, s) && holds_main(names, s) implies #[trigger] s.contains(t) by {
        assert(s.contains(main));
    }
}

/// The report of independent project configuration errors: each one on a
/// line of its own, marked with the category code `E400`.
pub open spec fn error_report(errors: Seq<Seq<char>>) -> Seq<char>
    decreases errors.len(),
{
    if errors.len() == 0 {
        seq![]
    } else if errors.len() == 1 {
        "error[E400]: "@ + errors[0]
    } else {
        error_report(errors.drop_last()) + "\nerror[E400]: "@ + errors.last()
    }
}

/// Several independent project configuration errors reported together, one
/// per line.
pub fn multiple_errors(errors: Vec<String>) -> (r: String)
    ensures
        r@ == error_report(crate::text::string_views(errors@)),
{
    let ghost views = crate::text::string_views(errors@);
    let mut text = String::new();
    let mut i: usize = 0;
    while i < errors.len()
        invariant
            i <= errors.len(),
            views == crate::text::string_views(errors@),
            text@ == error_report(views.subrange(0, i as int)),
        decreases errors.len() - i,
    {
        if i > 0 {
            text.append("\nerror[E400]: ");
        } else {
            text.append("error[E400]: ");
        }
        text.append(errors[i].as_str());
        proof {
            let next = views.subrange(0, i + 1);
            assert(next.drop_last() =~= views.subrange(0, i as int));
            assert(next.last() == errors@[i as int]@);
            if i == 0 {
                assert(text@ =~= error_report(next));
            }
        }
        i = i + 1;
    }
    assert(views.subrange(0, errors.len() as int) =~= views);
    text
}

} // verus!
