//! Gating a move to costumes: the authored script, the fighter's own script, and a dispatcher
//! between them.
//!
//! A script replaces the move for every costume of a fighter. A gate that did nothing for the
//! other costumes would take the move from them, so the dispatcher always has an arm that runs
//! the fighter's own script.

use vstd::prelude::*;
use vstd::string::*;

use super::lemma_digits;
use crate::text::{
    chars_of, concat, contains, dec, dec_text, digits_u8, ends_with, find_from, join, join_texts,
    lemma_dec_reads_back, occurs_at, starts_with, string_between, texts, trim_text, trimmed,
};

verus! {

/// The first position from `from` on at which `p` stands in `s`.
pub open spec fn first_at(s: Seq<char>, p: Seq<char>, from: int) -> Option<int>
    decreases s.len() - from,
{
    if occurs_at(s, p, from) {
        Some(from)
    } else if from >= s.len() {
        None
    } else {
        first_at(s, p, from + 1)
    }
}

proof fn lemma_first_at(s: Seq<char>, p: Seq<char>, from: int, at: int)
    requires
        0 <= from <= at,
        occurs_at(s, p, at),
        forall|j: int| from <= j < at ==> !occurs_at(s, p, j),
    ensures
        first_at(s, p, from) == Some(at),
    decreases at - from,
{
    if from < at {
        lemma_first_at(s, p, from + 1, at);
    }
}

proof fn lemma_nowhere(s: Seq<char>, p: Seq<char>, from: int)
    requires
        0 <= from,
        forall|j: int| from <= j ==> !occurs_at(s, p, j),
    ensures
        first_at(s, p, from) is None,
    decreases s.len() - from,
{
    if from < s.len() {
        lemma_nowhere(s, p, from + 1);
    }
}

fn find_first(s: &Vec<char>, p: &Vec<char>) -> (r: Option<usize>)
    ensures
        match r {
            Some(at) => first_at(s@, p@, 0) == Some(at as int) && at + p@.len() <= s@.len(),
            None => first_at(s@, p@, 0) is None,
        },
{
    match find_from(s, p, 0) {
        Some(at) => {
            proof {
                lemma_first_at(s@, p@, 0, at as int);
            }
            Some(at)
        },
        None => {
            proof {
                lemma_nowhere(s@, p@, 0);
            }
            None
        },
    }
}

/// The name of the first function that a source declares.
pub open spec fn declared(source: Seq<char>) -> Option<Seq<char>> {
    match first_at(source, "fn "@, 0) {
        Some(at) => {
            let rest = source.skip(at + 3);
            match first_at(rest, "("@, 0) {
                Some(open) => Some(trimmed(rest.take(open))),
                None => None,
            }
        },
        None => None,
    }
}

/// The name of the first function that a source declares.
pub fn declared_name(source: &str) -> (r: Option<String>)
    ensures
        match r {
            Some(name) => declared(source@) == Some(name@),
            None => declared(source@) is None,
        },
{
    proof {
        reveal_strlit("fn ");
    }
    let text = chars_of(source);
    let word = chars_of("fn ");
    let at: usize = match find_first(&text, &word) {
        Some(at) => at,
        None => {
            return None;
        },
    };
    assert(word@.len() == 3 && text@.len() == text.len());
    let rest = string_between(&text, at + 3, text.len());
    assert(rest@ =~= source@.skip(at + 3));
    let rest = chars_of(rest.as_str());
    let bracket = chars_of("(");
    match find_first(&rest, &bracket) {
        Some(open) => {
            let name = string_between(&rest, 0, open);
            assert(name@ =~= rest@.take(open as int));
            Some(trim_text(name.as_str()))
        },
        None => None,
    }
}

/// How the declaration of a function begins.
pub open spec fn declaration(name: Seq<char>) -> Seq<char> {
    "fn "@ + name + "("@
}

fn declaration_text(name: &str) -> (r: String)
    ensures
        r@ == declaration(name@),
{
    let mut r = concat("fn ", name);
    r.append("(");
    r
}

/// A source in which the first declaration of a function has another name.
pub open spec fn renamed(source: Seq<char>, from: Seq<char>, to: Seq<char>) -> Seq<char> {
    match first_at(source, declaration(from), 0) {
        Some(at) => source.take(at) + declaration(to) + source.skip(at + declaration(from).len()),
        None => source,
    }
}

/// Renames a function whose name is known.
pub fn rename_function(source: &str, from: &str, to: &str) -> (r: String)
    ensures
        r@ == renamed(source@, from@, to@),
{
    let text = chars_of(source);
    let wanted = declaration_text(from);
    let wanted = chars_of(wanted.as_str());
    match find_first(&text, &wanted) {
        Some(at) => {
            let mut r = string_between(&text, 0, at);
            let new = declaration_text(to);
            r.append(new.as_str());
            assert(wanted@.len() == wanted.len() && text@.len() == text.len());
            let rest = string_between(&text, at + wanted.len(), text.len());
            r.append(rest.as_str());
            assert(text@.subrange(0, at as int) =~= source@.take(at as int));
            assert(text@.subrange(at + wanted@.len(), text@.len() as int) =~= source@.skip(
                at + wanted@.len(),
            ));
            r
        },
        None => source.to_owned(),
    }
}

/// A source in which the first function that it declares has another name.
pub open spec fn declared_renamed(source: Seq<char>, to: Seq<char>) -> Seq<char> {
    match declared(source) {
        Some(name) => renamed(source, name, to),
        None => source,
    }
}

/// Renames the first function that a source declares, whatever its name is: a captured script is
/// named after the move, which need not be the name that is registered.
pub fn rename_declared_function(source: &str, to: &str) -> (r: String)
    ensures
        r@ == declared_renamed(source@, to@),
{
    match declared_name(source) {
        Some(name) => rename_function(source, name.as_str(), to),
        None => source.to_owned(),
    }
}

/// A source as the costume arm of a gate names it.
pub open spec fn costume_arm(source: Seq<char>) -> Seq<char> {
    match declared(source) {
        Some(name) => renamed(source, name, name + "_costume"@),
        None => source,
    }
}

/// A source as the costume arm of a gate names it.
pub fn costume_arm_source(source: &str) -> (r: String)
    ensures
        r@ == costume_arm(source@),
{
    match declared_name(source) {
        Some(name) => {
            let arm = concat(name.as_str(), "_costume");
            rename_function(source, name.as_str(), arm.as_str())
        },
        None => source.to_owned(),
    }
}

/// The slots of a list below `n`, each once, in ascending order.
pub open spec fn slots_below(slots: Seq<u8>, n: int) -> Seq<u8>
    decreases n,
{
    if n <= 0 {
        Seq::empty()
    } else if slots.contains((n - 1) as u8) {
        slots_below(slots, n - 1).push((n - 1) as u8)
    } else {
        slots_below(slots, n - 1)
    }
}

/// The slots of a list, each once, in ascending order.
pub open spec fn distinct_slots(slots: Seq<u8>) -> Seq<u8> {
    slots_below(slots, 256)
}

fn has_slot(slots: &[u8], slot: u8) -> (r: bool)
    ensures
        r == slots@.contains(slot),
{
    let mut i: usize = 0;
    while i < slots.len()
        invariant
            i <= slots.len(),
            forall|j: int| 0 <= j < i ==> slots@[j] != slot,
        decreases slots.len() - i,
    {
        if slots[i] == slot {
            assert(slots@[i as int] == slot);
            return true;
        }
        i = i + 1;
    }
    false
}

/// The slots of a list, each once, in ascending order.
pub fn sorted_slots(slots: &[u8]) -> (r: Vec<u8>)
    ensures
        r@ == distinct_slots(slots@),
{
    let mut r: Vec<u8> = Vec::new();
    let mut n: u16 = 0;
    while n < 256
        invariant
            n <= 256,
            r@ == slots_below(slots@, n as int),
        decreases 256 - n,
    {
        if has_slot(slots, n as u8) {
            r.push(n as u8);
        }
        n = n + 1;
    }
    r
}

/// The distinct slots of a list are its slots, and they ascend.
pub proof fn lemma_distinct_slots(slots: Seq<u8>, n: int)
    requires
        0 <= n <= 256,
    ensures
        forall|i: int|
            0 <= i < slots_below(slots, n).len() ==> #[trigger] slots_below(slots, n)[i] < n
                && slots.contains(slots_below(slots, n)[i]),
        forall|i: int, j: int|
            0 <= i < j < slots_below(slots, n).len() ==> slots_below(slots, n)[i] < slots_below(
                slots,
                n,
            )[j],
        forall|slot: u8|
            slot < n && slots.contains(slot) ==> #[trigger] slots_below(slots, n).contains(slot),
    decreases n,
{
    if n > 0 {
        lemma_distinct_slots(slots, n - 1);
        let was = slots_below(slots, n - 1);
        let now = slots_below(slots, n);
        assert forall|slot: u8| slot < n && slots.contains(slot) implies #[trigger] now.contains(
            slot,
        ) by {
            if slot < n - 1 {
                assert(was.contains(slot));
                let i = was.index_of(slot);
                assert(now[i] == slot);
            } else {
                assert(now[now.len() - 1] == slot);
            }
        }
    }
}

/// The tests for the slots of a gate.
pub open spec fn slot_tests(slots: Seq<u8>) -> Seq<Seq<char>> {
    slots.map_values(|slot: u8| "color == "@ + dec(slot as nat))
}

/// The condition of a gate.
pub open spec fn gate_condition(slots: Seq<u8>) -> Seq<char> {
    join(slot_tests(distinct_slots(slots)), " || "@)
}

fn condition_text(slots: &[u8]) -> (r: String)
    ensures
        r@ == gate_condition(slots@),
{
    let sorted = sorted_slots(slots);
    let mut tests: Vec<String> = Vec::new();
    let mut i: usize = 0;
    assert(texts(tests@) =~= slot_tests(sorted@.take(0)));
    while i < sorted.len()
        invariant
            i <= sorted.len(),
            texts(tests@) == slot_tests(sorted@.take(i as int)),
        decreases sorted.len() - i,
    {
        let ghost was = texts(tests@);
        let number = dec_text(sorted[i] as u64);
        let test = concat("color == ", number.as_str());
        let ghost text = test@;
        tests.push(test);
        assert(texts(tests@) =~= was.push(text));
        assert(slot_tests(sorted@.take(i + 1)) =~= slot_tests(sorted@.take(i as int)).push(text));
        i = i + 1;
    }
    assert(sorted@.take(sorted@.len() as int) =~= sorted@);
    join_texts(&tests, " || ")
}

/// The dispatcher of a gate, between its opening bracket and its condition.
pub open spec fn dispatcher_head() -> Seq<char> {
    "agent: &mut L2CAgentBase) {\n\
    \x20   // Costume gate, generated by Visionary. This script replaces the move for EVERY\n\
    \x20   // costume of this fighter, so the else arm runs the fighter's own script —\n\
    \x20   // without it, every other costume would lose this move entirely.\n\
    \x20   let color = smash::app::lua_bind::WorkModule::get_int(\n\
    \x20       agent.module_accessor,\n\
    \x20       *smash::lib::lua_const::FIGHTER_INSTANCE_WORK_ID_INT_COLOR,\n\
    \x20   );\n\
    \x20   if "@
}

fn dispatcher_head_text() -> (r: &'static str)
    ensures
        r@ == dispatcher_head(),
{
    "agent: &mut L2CAgentBase) {\n\
    \x20   // Costume gate, generated by Visionary. This script replaces the move for EVERY\n\
    \x20   // costume of this fighter, so the else arm runs the fighter's own script —\n\
    \x20   // without it, every other costume would lose this move entirely.\n\
    \x20   let color = smash::app::lua_bind::WorkModule::get_int(\n\
    \x20       agent.module_accessor,\n\
    \x20       *smash::lib::lua_const::FIGHTER_INSTANCE_WORK_ID_INT_COLOR,\n\
    \x20   );\n\
    \x20   if "
}

/// The dispatcher of a gate. It keeps the registered name, and calls one arm or the other.
pub open spec fn dispatcher(name: Seq<char>, slots: Seq<u8>) -> Seq<char> {
    "unsafe extern \"C\" "@ + declaration(name) + dispatcher_head() + gate_condition(slots) + " {\n        "@
        + (name + "_costume"@) + "(agent);\n    } else {\n        "@ + (name + "_original"@)
        + "(agent);\n    }\n}\n"@
}

/// The source of a gated move: the authored script as the costume arm, the fighter's own script as
/// the other, and the dispatcher.
pub open spec fn gated(
    name: Seq<char>,
    slots: Seq<u8>,
    authored: Seq<char>,
    original: Seq<char>,
) -> Seq<char> {
    declared_renamed(authored, name + "_costume"@) + "\n"@ + declared_renamed(
        original,
        name + "_original"@,
    ) + "\n"@ + dispatcher(name, slots)
}

/// The source of a move that is gated to the costumes `slots`. The dispatcher keeps the registered
/// name; the authored script and the fighter's own script get names of their own, whatever the names
/// that they declare.
pub fn costume_gated_source_multi(
    registered_name: &str,
    slots: &[u8],
    authored_source: &str,
    original_source: &str,
) -> (r: String)
    requires
        slots@.len() > 0,
    ensures
        r@ == gated(registered_name@, slots@, authored_source@, original_source@),
{
    let condition = condition_text(slots);
    let authored_name = concat(registered_name, "_costume");
    let original_name = concat(registered_name, "_original");
    let mut r = rename_declared_function(authored_source, authored_name.as_str());
    r.append("\n");
    let original = rename_declared_function(original_source, original_name.as_str());
    r.append(original.as_str());
    r.append("\n");
    let declared = declaration_text(registered_name);
    let mut d = concat("unsafe extern \"C\" ", declared.as_str());
    d.append(dispatcher_head_text());
    d.append(condition.as_str());
    d.append(" {\n        ");
    d.append(authored_name.as_str());
    d.append("(agent);\n    } else {\n        ");
    d.append(original_name.as_str());
    d.append("(agent);\n    }\n}\n");
    assert(d@ == dispatcher(registered_name@, slots@));
    r.append(d.as_str());
    r
}

/// A text made of a part, another and a third has the one in the middle.
proof fn lemma_middle(a: Seq<char>, b: Seq<char>, c: Seq<char>)
    ensures
        contains(a + b + c, b),
{
    let s = a + b + c;
    assert(s.subrange(a.len() as int, (a.len() + b.len()) as int) =~= b);
    assert(occurs_at(s, b, a.len() as int));
}

/// A gated move keeps its registered name, so that nothing else has to change; it tests exactly
/// the given slots, each once; and both arms are called, so that no other costume loses the move.
pub proof fn law_a_gate_runs_one_script_or_the_other(
    name: Seq<char>,
    slots: Seq<u8>,
    authored: Seq<char>,
    original: Seq<char>,
)
    ensures
        contains(gated(name, slots, authored, original), declaration(name)),
        contains(gated(name, slots, authored, original), name + "_costume"@ + "(agent);"@),
        contains(gated(name, slots, authored, original), name + "_original"@ + "(agent);"@),
        forall|slot: u8| #[trigger] distinct_slots(slots).contains(slot) == slots.contains(slot),
        distinct_slots(slots).no_duplicates(),
{
    let g = gated(name, slots, authored, original);
    reveal_strlit("(agent);");
    reveal_strlit("(agent);\n    } else {\n        ");
    reveal_strlit("(agent);\n    }\n}\n");
    let arms = declared_renamed(authored, name + "_costume"@) + "\n"@ + declared_renamed(
        original,
        name + "_original"@,
    ) + "\n"@;
    let start = "unsafe extern \"C\" "@;
    let head = dispatcher_head();
    let condition = gate_condition(slots);
    let open = " {\n        "@;
    let costume = name + "_costume"@;
    let mid = "(agent);\n    } else {\n        "@;
    let other = name + "_original"@;
    let end = "(agent);\n    }\n}\n"@;
    let after_name = head + condition + open + costume + mid + other + end;
    assert(g =~= (arms + start) + declaration(name) + after_name);
    lemma_middle(arms + start, declaration(name), after_name);
    let before_costume = arms + start + declaration(name) + head + condition + open;
    let call = "(agent);"@;
    assert(mid =~= call + mid.skip(8));
    assert(end =~= call + end.skip(8));
    assert(g =~= before_costume + (costume + call) + (mid.skip(8) + other + end));
    lemma_middle(before_costume, costume + call, mid.skip(8) + other + end);
    let before_other = before_costume + costume + mid;
    assert(g =~= before_other + (other + call) + end.skip(8));
    lemma_middle(before_other, other + call, end.skip(8));
    lemma_distinct_slots(slots, 256);
    let list = distinct_slots(slots);
    assert forall|slot: u8| #[trigger] list.contains(slot) == slots.contains(slot) by {
        if list.contains(slot) {
            let i = list.index_of(slot);
            assert(slots.contains(list[i]));
        }
    }
}

/// Whether the word that begins a declaration stands at a position.
pub open spec fn word_at(s: Seq<char>, j: int) -> bool {
    0 <= j && j + 3 <= s.len() && s[j] == 'f' && s[j + 1] == 'n' && s[j + 2] == ' '
}

spec fn word_free(s: Seq<char>, n: int) -> bool
    decreases n,
{
    n <= 0 || (!word_at(s, n - 1) && word_free(s, n - 1))
}

proof fn lemma_word_free(s: Seq<char>, n: int, j: int)
    requires
        word_free(s, n),
        0 <= j < n,
    ensures
        !word_at(s, j),
    decreases n,
{
    if j < n - 1 {
        lemma_word_free(s, n - 1, j);
    }
}

proof fn lemma_head_word_free()
    ensures
        word_free(dispatcher_head(), dispatcher_head().len() as int),
        dispatcher_head().len() > 0,
        dispatcher_head().last() == ' ',
{
    reveal_strlit(
        "agent: &mut L2CAgentBase) {\n\
    \x20   // Costume gate, generated by Visionary. This script replaces the move for EVERY\n\
    \x20   // costume of this fighter, so the else arm runs the fighter's own script —\n\
    \x20   // without it, every other costume would lose this move entirely.\n\
    \x20   let color = smash::app::lua_bind::WorkModule::get_int(\n\
    \x20       agent.module_accessor,\n\
    \x20       *smash::lib::lua_const::FIGHTER_INSTANCE_WORK_ID_INT_COLOR,\n\
    \x20   );\n\
    \x20   if ",
    );
    let head = dispatcher_head();
    assert(head.len() == 435);
    reveal_with_fuel(word_free, 41);
    assert(word_free(head, 40));
    assert(word_free(head, 80));
    assert(word_free(head, 120));
    assert(word_free(head, 160));
    assert(word_free(head, 200));
    assert(word_free(head, 240));
    assert(word_free(head, 280));
    assert(word_free(head, 320));
    assert(word_free(head, 360));
    assert(word_free(head, 400));
    assert(word_free(head, 435));
}

/// Whether no declaration begins in a text.
pub open spec fn declares_nothing(s: Seq<char>) -> bool {
    forall|j: int| !word_at(s, j)
}

proof fn lemma_free_all(s: Seq<char>)
    requires
        word_free(s, s.len() as int),
    ensures
        declares_nothing(s),
{
    assert forall|j: int| !word_at(s, j) by {
        if 0 <= j < s.len() {
            lemma_word_free(s, s.len() as int, j);
        }
    }
}

proof fn lemma_free_append(a: Seq<char>, b: Seq<char>)
    requires
        declares_nothing(a),
        declares_nothing(b),
        a.len() > 0 && b.len() > 0 ==> (a.last() != 'f' && a.last() != 'n') || (b[0] != 'n' && b[0]
            != ' '),
    ensures
        declares_nothing(a + b),
{
    let s = a + b;
    assert forall|j: int| !word_at(s, j) by {
        if word_at(s, j) {
            if j >= a.len() {
                assert(word_at(b, j - a.len()));
            } else if j + 3 <= a.len() {
                assert(word_at(a, j));
            } else if j + 1 == a.len() {
                assert(s[j] == a.last() && s[j + 1] == b[0]);
            } else {
                assert(s[j + 1] == a.last() && s[j + 2] == b[0]);
            }
        }
    }
}

/// Whether a text can be the name of a function: it has neither a blank nor a bracket.
pub open spec fn is_function_name(s: Seq<char>) -> bool {
    forall|i: int|
        0 <= i < s.len() ==> #[trigger] s[i] != ' ' && s[i] != '('
}

/// Whether a source declares a function, and no other.
pub open spec fn declares_only(source: Seq<char>, name: Seq<char>) -> bool {
    exists|at: int|
        {
            &&& #[trigger] occurs_at(source, declaration(name), at)
            &&& forall|j: int| #[trigger] word_at(source, j) ==> j == at
        }
}

/// Whether a text stands at one position of another, and nowhere else.
pub open spec fn occurs_only_at(s: Seq<char>, p: Seq<char>, at: int) -> bool {
    forall|j: int| #[trigger] occurs_at(s, p, j) == (j == at)
}

proof fn lemma_declaration_at(s: Seq<char>, name: Seq<char>, at: int)
    ensures
        occurs_at(s, declaration(name), at) == (word_at(s, at) && at + 4 + name.len() <= s.len()
            && s.subrange(at + 3, at + 3 + name.len()) == name && s[at + 3 + name.len()] == '('),
{
    reveal_strlit("fn ");
    reveal_strlit("(");
    let p = declaration(name);
    if occurs_at(s, p, at) {
        let found = s.subrange(at, at + p.len());
        assert(found[0] == p[0] && found[1] == p[1] && found[2] == p[2]);
        assert(found[3 + name.len() as int] == p[3 + name.len() as int]);
        assert(s.subrange(at + 3, at + 3 + name.len()) =~= found.subrange(3, 3 + name.len() as int));
        assert(p.subrange(3, 3 + name.len() as int) =~= name);
    }
    if word_at(s, at) && at + 4 + name.len() <= s.len() && s.subrange(
        at + 3,
        at + 3 + name.len(),
    ) == name && s[at + 3 + name.len()] == '(' {
        let found = s.subrange(at, at + p.len());
        assert forall|k: int| 0 <= k < p.len() implies found[k] == p[k] by {
            if 3 <= k < 3 + name.len() {
                assert(s.subrange(at + 3, at + 3 + name.len())[k - 3] == name[k - 3]);
            }
        }
        assert(found =~= p);
    }
}

/// Two declarations that begin at one position have one name.
proof fn lemma_one_name(s: Seq<char>, a: Seq<char>, b: Seq<char>, at: int)
    requires
        is_function_name(a),
        is_function_name(b),
        occurs_at(s, declaration(a), at),
        occurs_at(s, declaration(b), at),
    ensures
        a == b,
{
    lemma_declaration_at(s, a, at);
    lemma_declaration_at(s, b, at);
    let x = s.subrange(at + 3, at + 3 + a.len());
    let y = s.subrange(at + 3, at + 3 + b.len());
    if a.len() < b.len() {
        assert(y[a.len() as int] == '(');
    }
    if b.len() < a.len() {
        assert(x[b.len() as int] == '(');
    }
    assert(a =~= b);
}

/// Renaming the function that a source declares leaves it declaring one function.
proof fn lemma_renamed_declares(source: Seq<char>, from: Seq<char>, to: Seq<char>)
    requires
        is_function_name(to),
        declares_only(source, from),
    ensures
        declares_only(renamed(source, from, to), to),
{
    let at = choose|at: int|
        {
            &&& #[trigger] occurs_at(source, declaration(from), at)
            &&& forall|j: int| #[trigger] word_at(source, j) ==> j == at
        };
    lemma_declaration_at(source, from, at);
    assert forall|j: int| 0 <= j < at implies !occurs_at(source, declaration(from), j) by {
        lemma_declaration_at(source, from, j);
    }
    lemma_first_at(source, declaration(from), 0, at);
    reveal_strlit("fn ");
    reveal_strlit("(");
    let now = renamed(source, from, to);
    let d = declaration(to);
    let end = at + d.len();
    let rest = source.skip(at + declaration(from).len());
    assert(now == source.take(at) + d + rest);
    assert(now.subrange(at, end) =~= d);
    assert(occurs_at(now, d, at));
    assert forall|j: int| #[trigger] word_at(now, j) implies j == at by {
        if j + 3 <= at + 3 {
            assert(forall|k: int| 0 <= k < at + 3 ==> #[trigger] now[k] == source[k]);
            assert(word_at(source, j));
        } else if j + 2 < end {
            assert(now[j + 2] == d[j + 2 - at]);
            assert(d[j + 2 - at] != ' ') by {
                if j + 2 - at < 3 + to.len() {
                    assert(d[j + 2 - at] == to[j + 2 - at - 3]);
                }
            }
        } else if j >= end {
            let k = j - end;
            assert(now[j] == rest[k] && now[j + 1] == rest[k + 1] && now[j + 2] == rest[k + 2]);
            assert(word_at(source, k + at + declaration(from).len()));
        } else {
            assert(now[end - 1] == d[d.len() - 1]);
        }
    }
}

proof fn lemma_declared_own(source: Seq<char>, own: Seq<char>)
    requires
        is_function_name(own),
        trimmed(own) == own,
        declares_only(source, own),
    ensures
        declared(source) == Some(own),
{
    let at = choose|at: int|
        {
            &&& #[trigger] occurs_at(source, declaration(own), at)
            &&& forall|j: int| #[trigger] word_at(source, j) ==> j == at
        };
    lemma_declaration_at(source, own, at);
    reveal_strlit("fn ");
    reveal_strlit("(");
    assert(source.subrange(at, at + 3) =~= "fn "@);
    assert forall|j: int| 0 <= j < at implies !occurs_at(source, "fn "@, j) by {
        if occurs_at(source, "fn "@, j) {
            let found = source.subrange(j, j + 3);
            assert(found[0] == 'f' && found[1] == 'n' && found[2] == ' ');
            assert(word_at(source, j));
        }
    }
    lemma_first_at(source, "fn "@, 0, at);
    let rest = source.skip(at + 3);
    let n = own.len() as int;
    assert(rest.take(n) =~= source.subrange(at + 3, at + 3 + n));
    assert(rest.subrange(n, n + 1) =~= "("@);
    assert forall|j: int| 0 <= j < n implies !occurs_at(rest, "("@, j) by {
        if occurs_at(rest, "("@, j) {
            assert(rest.subrange(j, j + 1)[0] == '(');
            assert(own[j] == rest.take(n)[j]);
        }
    }
    lemma_first_at(rest, "("@, 0, n);
}

proof fn lemma_condition_letters(parts: Seq<Seq<char>>, sep: Seq<char>)
    requires
        forall|i: int, k: int|
            0 <= i < parts.len() && 0 <= k < parts[i].len() ==> #[trigger] parts[i][k] != 'f'
                && parts[i][k] != 'n',
        forall|k: int| 0 <= k < sep.len() ==> #[trigger] sep[k] != 'f' && sep[k] != 'n',
    ensures
        forall|k: int|
            0 <= k < join(parts, sep).len() ==> #[trigger] join(parts, sep)[k] != 'f' && join(
                parts,
                sep,
            )[k] != 'n',
    decreases parts.len(),
{
    if parts.len() > 1 {
        let front = parts.drop_last();
        assert forall|i: int, k: int|
            0 <= i < front.len() && 0 <= k < front[i].len() implies #[trigger] front[i][k] != 'f'
            && front[i][k] != 'n' by {
            assert(front[i] == parts[i]);
        }
        lemma_condition_letters(front, sep);
        let whole = join(parts, sep);
        let start = join(front, sep);
        let last = parts.last();
        assert(whole == start + sep + last);
        assert forall|k: int| 0 <= k < whole.len() implies #[trigger] whole[k] != 'f' && whole[k]
            != 'n' by {
            if k < start.len() {
                assert(whole[k] == start[k]);
            } else if k < start.len() + sep.len() {
                assert(whole[k] == sep[k - start.len()]);
            } else {
                assert(whole[k] == parts[parts.len() - 1][k - start.len() - sep.len()]);
            }
        }
    }
}

proof fn lemma_condition(slots: Seq<u8>)
    ensures
        forall|k: int|
            0 <= k < gate_condition(slots).len() ==> #[trigger] gate_condition(slots)[k] != 'f'
                && gate_condition(slots)[k] != 'n',
{
    reveal_strlit("color == ");
    reveal_strlit(" || ");
    let parts = slot_tests(distinct_slots(slots));
    assert forall|i: int, k: int|
        0 <= i < parts.len() && 0 <= k < parts[i].len() implies #[trigger] parts[i][k] != 'f'
        && parts[i][k] != 'n' by {
        let digits = dec(distinct_slots(slots)[i] as nat);
        lemma_digits(distinct_slots(slots)[i] as nat);
        assert(parts[i] == "color == "@ + digits);
        if k >= 9 {
            assert(parts[i][k] == digits[k - 9]);
            assert('0' <= digits[k - 9] <= '9');
        }
    }
    lemma_condition_letters(parts, " || "@);
}

proof fn lemma_name_free(name: Seq<char>)
    requires
        is_function_name(name),
    ensures
        declares_nothing(name),
{
    assert forall|j: int| !word_at(name, j) by {
        if word_at(name, j) {
            assert(name[j + 2] != ' ');
        }
    }
}

/// The dispatcher declares the registered name, and nothing else.
proof fn lemma_dispatcher(name: Seq<char>, slots: Seq<u8>)
    requires
        is_function_name(name),
    ensures
        declares_only(dispatcher(name, slots), name),
{
    let head = dispatcher_head();
    let cond = gate_condition(slots);
    let gap = " {\n        "@;
    let costume = name + "_costume"@;
    let mid = "(agent);\n    } else {\n        "@;
    let other = name + "_original"@;
    let end = "(agent);\n    }\n}\n"@;
    let start = "unsafe extern \"C\" "@;
    reveal_strlit("fn ");
    reveal_strlit("(");
    reveal_strlit(" {\n        ");
    reveal_strlit("(agent);\n    } else {\n        ");
    reveal_strlit("(agent);\n    }\n}\n");
    reveal_strlit("unsafe extern \"C\" ");
    assert(word_free(gap, gap.len() as int) && word_free(end, end.len() as int) && word_free(
        mid,
        mid.len() as int,
    ) && word_free(start, start.len() as int)) by {
        reveal_with_fuel(word_free, 41);
    }
    lemma_free_all(gap);
    lemma_free_all(mid);
    lemma_free_all(end);
    lemma_free_all(start);
    lemma_head_word_free();
    lemma_free_all(head);
    lemma_condition(slots);
    assert(declares_nothing(cond));
    reveal_strlit("_costume");
    reveal_strlit("_original");
    lemma_name_free(name);
    lemma_name_free(costume);
    lemma_name_free(other);
    let t1 = name + "("@;
    lemma_free_append(name, "("@);
    let t2 = t1 + head;
    lemma_free_append(t1, head);
    let t3 = t2 + cond;
    lemma_free_append(t2, cond);
    let t4 = t3 + gap;
    lemma_free_append(t3, gap);
    let t5 = t4 + costume;
    lemma_free_append(t4, costume);
    let t6 = t5 + mid;
    lemma_free_append(t5, mid);
    let t7 = t6 + other;
    lemma_free_append(t6, other);
    let t8 = t7 + end;
    lemma_free_append(t7, end);
    let d = dispatcher(name, slots);
    let at = start.len() as int;
    assert(d =~= start + ("fn "@ + t8));
    assert(t8.take(name.len() as int) =~= name);
    assert(d.subrange(at + 3, at + 3 + name.len()) =~= name);
    assert(t8[name.len() as int] == '(');
    lemma_declaration_at(d, name, at);
    assert(occurs_at(d, declaration(name), at));
    assert forall|j: int| #[trigger] word_at(d, j) implies j == at by {
        if j + 3 <= at {
            assert(word_at(start, j));
        } else if j < at {
            assert(d[at - 1] == start[at - 1]);
        } else if j >= at + 3 {
            assert(word_at(t8, j - at - 3));
        }
    }
}

proof fn lemma_line_split(a: Seq<char>, b: Seq<char>, j: int)
    requires
        word_at(a + "\n"@ + b, j),
    ensures
        word_at(a, j) || word_at(b, j - a.len() - 1),
{
    reveal_strlit("\n");
    let s = a + "\n"@ + b;
    assert(s[a.len() as int] == '\n');
}

/// What stands in a part of a text stands in the text.
proof fn lemma_inside(part: Seq<char>, after: Seq<char>, before: Seq<char>, p: Seq<char>, at: int)
    requires
        occurs_at(part, p, at),
    ensures
        occurs_at(before + part + after, p, before.len() + at),
{
    let s = before + part + after;
    assert(s.subrange(before.len() + at, before.len() + at + p.len()) =~= part.subrange(
        at,
        at + p.len(),
    ));
}

/// A gated move has exactly one function of the registered name, the dispatcher, and one of each
/// arm's name; and the names that the authored script and the fighter's own script had are gone,
/// unless they are among the three that are declared.
pub proof fn law_one_function_carries_the_registered_name(
    name: Seq<char>,
    slots: Seq<u8>,
    authored: Seq<char>,
    original: Seq<char>,
    written: Seq<char>,
    own: Seq<char>,
)
    requires
        is_function_name(name),
        is_function_name(written),
        is_function_name(own),
        trimmed(written) == written,
        trimmed(own) == own,
        declares_only(authored, written),
        declares_only(original, own),
    ensures
        exists|at: int|
            #[trigger] occurs_only_at(
                gated(name, slots, authored, original),
                declaration(name),
                at,
            ),
        exists|at: int|
            #[trigger] occurs_only_at(
                gated(name, slots, authored, original),
                declaration(name + "_costume"@),
                at,
            ),
        exists|at: int|
            #[trigger] occurs_only_at(
                gated(name, slots, authored, original),
                declaration(name + "_original"@),
                at,
            ),
        forall|other: Seq<char>|
            (other == written || other == own) && other != name && other != name + "_costume"@
                && other != name + "_original"@ ==> !contains(
                gated(name, slots, authored, original),
                #[trigger] declaration(other),
            ),
{
    let costume = name + "_costume"@;
    let other = name + "_original"@;
    let a = declared_renamed(authored, costume);
    let o = declared_renamed(original, other);
    let d = dispatcher(name, slots);
    let g = gated(name, slots, authored, original);
    reveal_strlit("\n");
    reveal_strlit("_costume");
    reveal_strlit("_original");
    lemma_declared_own(authored, written);
    lemma_renamed_declares(authored, written, costume);
    lemma_declared_own(original, own);
    lemma_renamed_declares(original, own, other);
    lemma_dispatcher(name, slots);
    let p = choose|at: int|
        {
            &&& #[trigger] occurs_at(a, declaration(costume), at)
            &&& forall|j: int| #[trigger] word_at(a, j) ==> j == at
        };
    let q = choose|at: int|
        {
            &&& #[trigger] occurs_at(o, declaration(other), at)
            &&& forall|j: int| #[trigger] word_at(o, j) ==> j == at
        };
    let r = choose|at: int|
        {
            &&& #[trigger] occurs_at(d, declaration(name), at)
            &&& forall|j: int| #[trigger] word_at(d, j) ==> j == at
        };
    let front = a + "\n"@ + o;
    assert(g == front + "\n"@ + d);
    let second = a.len() + 1 + q;
    let third = front.len() + 1 + r;
    lemma_inside(a, "\n"@ + o + "\n"@ + d, Seq::empty(), declaration(costume), p);
    assert(g =~= Seq::empty() + a + ("\n"@ + o + "\n"@ + d));
    assert(occurs_at(g, declaration(costume), p));
    assert(g =~= (a + "\n"@) + o + ("\n"@ + d));
    lemma_inside(o, "\n"@ + d, a + "\n"@, declaration(other), q);
    assert(g =~= (front + "\n"@) + d + Seq::empty());
    lemma_inside(d, Seq::empty(), front + "\n"@, declaration(name), r);
    assert forall|j: int| #[trigger] word_at(g, j) implies j == p || j == second || j == third by {
        lemma_line_split(front, d, j);
        if word_at(front, j) {
            lemma_line_split(a, o, j);
        }
    }
    assert forall|x: Seq<char>, j: int|
        is_function_name(x) && #[trigger] occurs_at(g, declaration(x), j) implies (j == p && x
        == costume) || (j == second && x == other) || (j == third && x == name) by {
        lemma_declaration_at(g, x, j);
        if j == p {
            lemma_one_name(g, x, costume, j);
        } else if j == second {
            lemma_one_name(g, x, other, j);
        } else {
            lemma_one_name(g, x, name, j);
        }
    }
    assert(costume.len() != name.len() && other.len() != name.len());
    assert(costume[name.len() as int + 1] == 'c' && other[name.len() as int + 1] == 'o');
    assert(occurs_only_at(g, declaration(name), third));
    assert(occurs_only_at(g, declaration(costume), p));
    assert(occurs_only_at(g, declaration(other), second));
}

/// The slots of a gate ascend, so that none is tested twice.
pub proof fn law_slots_ascend(slots: Seq<u8>, n: int)
    requires
        0 <= n <= 256,
    ensures
        forall|i: int, j: int|
            0 <= i < j < slots_below(slots, n).len() ==> (#[trigger] slots_below(slots, n)[i]) < (
            #[trigger] slots_below(slots, n)[j]),
        forall|s: u8| #[trigger] slots_below(slots, n).contains(s) <==> s < n && slots.contains(s),
    decreases n,
{
    if n > 0 {
        law_slots_ascend(slots, n - 1);
        let was = slots_below(slots, n - 1);
        let now = slots_below(slots, n);
        assert forall|i: int| 0 <= i < was.len() implies (#[trigger] was[i]) < n - 1 by {
            assert(was.contains(was[i]));
        }
        assert forall|s: u8| #[trigger] now.contains(s) <==> s < n && slots.contains(s) by {
            if was.contains(s) {
                let i = choose|i: int| 0 <= i < was.len() && was[i] == s;
                assert(now[i] == s);
            }
            if s == n - 1 && slots.contains(s) {
                assert(now[was.len() as int] == s);
            }
            if now.contains(s) {
                let i = choose|i: int| 0 <= i < now.len() && now[i] == s;
                if i < was.len() {
                    assert(was[i] == s);
                    assert(was.contains(s));
                }
            }
        }
    }
}

/// What a gate does for a costume: the call in its first arm is to the authored script and stands
/// behind the condition, the call in its other arm is to the fighter's own.
pub proof fn law_the_authored_script_runs_where_the_condition_holds(
    name: Seq<char>,
    slots: Seq<u8>,
    authored: Seq<char>,
    original: Seq<char>,
)
    ensures
        ends_with(
            gated(name, slots, authored, original),
            "if "@ + gate_condition(slots) + " {\n        "@ + name + "_costume"@
                + "(agent);\n    } else {\n        "@ + name + "_original"@
                + "(agent);\n    }\n}\n"@,
        ),
        starts_with(
            gated(name, slots, authored, original),
            declared_renamed(authored, name + "_costume"@) + "\n"@ + declared_renamed(
                original,
                name + "_original"@,
            ),
        ),
{
    reveal_strlit("if ");
    reveal_strlit(
        "agent: &mut L2CAgentBase) {\n\
    \x20   // Costume gate, generated by Visionary. This script replaces the move for EVERY\n\
    \x20   // costume of this fighter, so the else arm runs the fighter's own script —\n\
    \x20   // without it, every other costume would lose this move entirely.\n\
    \x20   let color = smash::app::lua_bind::WorkModule::get_int(\n\
    \x20       agent.module_accessor,\n\
    \x20       *smash::lib::lua_const::FIGHTER_INSTANCE_WORK_ID_INT_COLOR,\n\
    \x20   );\n\
    \x20   if ",
    );
    let head = dispatcher_head();
    assert(head.subrange(head.len() - 3, head.len() as int) =~= "if "@);
    let rest = gate_condition(slots) + " {\n        "@ + name + "_costume"@
        + "(agent);\n    } else {\n        "@ + name + "_original"@ + "(agent);\n    }\n}\n"@;
    let tail = "if "@ + gate_condition(slots) + " {\n        "@ + name + "_costume"@
        + "(agent);\n    } else {\n        "@ + name + "_original"@ + "(agent);\n    }\n}\n"@;
    assert(tail =~= "if "@ + rest);
    let whole = gated(name, slots, authored, original);
    let arms = declared_renamed(authored, name + "_costume"@) + "\n"@ + declared_renamed(
        original,
        name + "_original"@,
    );
    let front = arms + "\n"@ + ("unsafe extern \"C\" "@ + declaration(name));
    assert(whole =~= front + head + rest);
    assert(whole.subrange(whole.len() - tail.len(), whole.len() as int) =~= tail);
    assert(whole.subrange(0, arms.len() as int) =~= arms);
}

/// The condition of a gate tests the costume against each of the slots: one slot alone is one test,
/// and each slot has a test with its own number.
pub proof fn law_each_slot_is_tested_by_its_number(slots: Seq<u8>, i: int)
    requires
        0 <= i < distinct_slots(slots).len(),
    ensures
        slot_tests(distinct_slots(slots)).len() == distinct_slots(slots).len(),
        slot_tests(distinct_slots(slots))[i] == "color == "@ + dec(distinct_slots(slots)[i] as nat),
        digits_u8(slot_tests(distinct_slots(slots))[i].skip("color == "@.len() as int)) == Some(
            distinct_slots(slots)[i],
        ),
        distinct_slots(slots).len() == 1 ==> gate_condition(slots) == "color == "@ + dec(
            distinct_slots(slots)[0] as nat,
        ),
{
    let slot = distinct_slots(slots)[i];
    lemma_dec_reads_back(slot as nat);
    let test = slot_tests(distinct_slots(slots))[i];
    assert(test.skip("color == "@.len() as int) =~= dec(slot as nat));
}

/// Renaming changes the name in the first declaration of it alone: what stands before and behind
/// that stays, and a source without it stays as it is.
pub proof fn law_renaming_changes_a_name_alone(
    source: Seq<char>,
    from: Seq<char>,
    to: Seq<char>,
    at: int,
)
    requires
        occurs_at(source, "fn "@ + from + "("@, at),
        forall|j: int| 0 <= j < at ==> !#[trigger] occurs_at(source, "fn "@ + from + "("@, j),
    ensures
        renamed(source, from, to) == source.take(at) + ("fn "@ + to + "("@) + source.skip(
            at + ("fn "@ + from + "("@).len(),
        ),
        renamed(source, from, from) == source,
{
    lemma_first_at(source, declaration(from), 0, at);
    assert(source.take(at) + declaration(from) + source.skip(at + declaration(from).len())
        =~= source) by {
        assert(source.subrange(at, at + declaration(from).len()) == declaration(from));
        let p = declaration(from);
        assert forall|k: int| 0 <= k < p.len() implies #[trigger] source[at + k] == p[k] by {
            assert(source.subrange(at, at + p.len())[k] == p[k]);
        }
        let back = source.take(at) + p + source.skip(at + p.len());
        assert forall|k: int| 0 <= k < source.len() implies back[k] == source[k] by {
            if at <= k < at + p.len() {
                assert(source[at + (k - at)] == p[k - at]);
            }
        }
    }
}

} // verus!
