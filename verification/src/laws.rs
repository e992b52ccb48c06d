//! What holds of every parse: the properties of the parsing rules, stated
//! over the same functions as the contracts and proved.

use vstd::prelude::*;
use crate::error::{CmdError, ErrorView};
use crate::outcome::ParseResult;
use crate::parse::{
    consumed, decoded_arg, decoded_elements, decoded_token, finished, initial_progress, named_index, outcome_view,
    parsed, settled, step, Progress,
};
use crate::schema::{names_distinct, names_hold, ArgView, Command, CommandView};
use crate::token::{token_views, Token, TokenView};
use crate::value::{ArgType, ValueView};

verus! {

/// The names of the arguments `args[from..]`.
pub open spec fn names_from(args: Seq<ArgView>, from: int) -> Set<Seq<char>> {
    Set::new(|name: Seq<char>| exists|i: int| from <= i < args.len() && 0 <= i && (#[trigger] args[i]).name == name)
}

/// A named argument that is found stands in the list, carries the name that
/// was looked for, and is the first to do so.
pub proof fn lemma_named_index(named: Seq<ArgView>, folded: Seq<char>, from: int)
    requires
        0 <= from,
    ensures
        match named_index(named, folded, from) {
            Some(i) => from <= i < named.len() && named[i].folded == folded && forall|j: int|
                from <= j < i ==> (#[trigger] named[j]).folded != folded,
            None => forall|j: int| from <= j < named.len() ==> (#[trigger] named[j]).folded != folded,
        },
    decreases named.len() - from,
{
    if from < named.len() && named[from].folded != folded {
        lemma_named_index(named, folded, from + 1);
    }
}

/// Whether the token at index `k` is the first from `at` on that is missing
/// or malformed, and `e` the error that this gives.
pub open spec fn fails_at(kind: ArgType, tokens: Seq<TokenView>, at: int, k: int, e: ErrorView) -> bool {
    &&& at <= k
    &&& forall|j: int| at <= j < k ==> j < tokens.len() && decoded_token(kind, #[trigger] tokens[j]) is Ok
    &&& if k >= tokens.len() {
        e == ErrorView::WrongArity
    } else {
        decoded_token(kind, tokens[k]) == Err::<ValueView, ErrorView>(e)
    }
}

/// What decoding the elements of a vector comes to. It succeeds exactly when
/// all the tokens are there and each of them decodes, and then the elements
/// are the decoded tokens in order, behind those already done. It fails with
/// the first token that is missing or malformed.
pub proof fn lemma_decoded_elements(
    kind: ArgType,
    tokens: Seq<TokenView>,
    at: int,
    left: nat,
    done: Seq<ValueView>,
)
    requires
        0 <= at,
    ensures
        match decoded_elements(kind, tokens, at, left, done) {
            Ok(items) => {
                &&& left > 0 ==> at + left <= tokens.len()
                &&& items.len() == done.len() + left
                &&& forall|i: int| 0 <= i < done.len() ==> items[i] == done[i]
                &&& forall|k: int|
                    at <= k < at + left ==> decoded_token(kind, #[trigger] tokens[k]) == Ok::<ValueView, ErrorView>(
                        items[done.len() + (k - at)],
                    )
            },
            Err(e) => exists|k: int| k < at + left && #[trigger] fails_at(kind, tokens, at, k, e),
        },
    decreases left,
{
    if left > 0 && at < tokens.len() {
        match decoded_token(kind, tokens[at]) {
            Ok(v) => {
                let rest = (left - 1) as nat;
                lemma_decoded_elements(kind, tokens, at + 1, rest, done.push(v));
                match decoded_elements(kind, tokens, at + 1, rest, done.push(v)) {
                    Ok(items) => {
                        assert(items[done.len() as int] == done.push(v)[done.len() as int]);
                        assert forall|i: int| 0 <= i < done.len() implies items[i] == done[i] by {
                            assert(items[i] == done.push(v)[i]);
                        }
                    },
                    Err(e) => {
                        let k = choose|k: int| k < at + 1 + rest && #[trigger] fails_at(kind, tokens, at + 1, k, e);
                        assert(fails_at(kind, tokens, at, k, e));
                    },
                }
            },
            Err(e) => {
                assert(fails_at(kind, tokens, at, at, e));
            },
        }
    } else if left > 0 {
        assert(fails_at(kind, tokens, at, at, ErrorView::WrongArity));
    }
}

/// What decoding one occurrence of an argument comes to. On success the
/// tokens it needs are all there, a scalar is its one token decoded, and a
/// vector has one element per token, each the token decoded, in order. It
/// fails with the first of its tokens that is missing or malformed.
pub proof fn lemma_decoded_arg(arg: ArgView, tokens: Seq<TokenView>, start: int)
    requires
        0 <= start,
    ensures
        match decoded_arg(arg, tokens, start) {
            Ok(v) => {
                &&& start + arg.arity() <= tokens.len()
                &&& !arg.is_vector() ==> decoded_token(arg.kind, tokens[start]) == Ok::<ValueView, ErrorView>(v)
                &&& arg.is_vector() ==> v is Vector && v->Vector_0.len() == arg.len && forall|k: int|
                    start <= k < start + arg.len ==> decoded_token(arg.kind, #[trigger] tokens[k]) == Ok::<
                        ValueView,
                        ErrorView,
                    >(v->Vector_0[k - start])
            },
            Err(e) => exists|k: int| k < start + arg.arity() && #[trigger] fails_at(arg.kind, tokens, start, k, e),
        },
{
    if arg.is_vector() {
        lemma_decoded_elements(arg.kind, tokens, start, arg.len, Seq::empty());
    } else if start < tokens.len() {
        if decoded_arg(arg, tokens, start) is Err {
            assert(fails_at(arg.kind, tokens, start, start, decoded_arg(arg, tokens, start)->Err_0));
        }
    } else {
        assert(fails_at(arg.kind, tokens, start, start, ErrorView::WrongArity));
    }
}

/// Whether `args[i]` is the first argument from `from` on that is neither
/// bound nor allowed a default that it has.
pub open spec fn missing_at(
    args: Seq<ArgView>,
    bound: Map<Seq<char>, ValueView>,
    from: int,
    defaults: bool,
    i: int,
) -> bool {
    &&& from <= i < args.len()
    &&& !bound.contains_key(args[i].name)
    &&& !(defaults && args[i].default is Some)
    &&& forall|j: int|
        from <= j < i ==> bound.contains_key((#[trigger] args[j]).name) || (defaults && args[j].default is Some)
}

/// When the completeness check on a list of distinct names succeeds: exactly
/// when every argument is bound or may take a default that it has. When it
/// fails, it names the first argument for which neither holds.
pub proof fn lemma_settled_succeeds(
    args: Seq<ArgView>,
    bound: Map<Seq<char>, ValueView>,
    from: int,
    defaults: bool,
)
    requires
        0 <= from,
        names_distinct(args),
    ensures
        settled(args, bound, from, defaults) is Ok <==> forall|i: int|
            from <= i < args.len() ==> bound.contains_key((#[trigger] args[i]).name) || (defaults
                && args[i].default is Some),
        settled(args, bound, from, defaults) matches Err(e) ==> exists|i: int|
            #[trigger] missing_at(args, bound, from, defaults, i) && e == ErrorView::MissingRequired(args[i].name),
    decreases args.len() - from,
{
    if from < args.len() {
        let name = args[from].name;
        if bound.contains_key(name) {
            lemma_settled_succeeds(args, bound, from + 1, defaults);
            if settled(args, bound, from, defaults) is Err {
                let e = settled(args, bound, from, defaults)->Err_0;
                let i = choose|i: int|
                    #[trigger] missing_at(args, bound, from + 1, defaults, i) && e == ErrorView::MissingRequired(
                        args[i].name,
                    );
                assert(missing_at(args, bound, from, defaults, i));
            }
        } else if defaults && args[from].default is Some {
            let next = bound.insert(name, args[from].default->Some_0);
            lemma_settled_succeeds(args, next, from + 1, defaults);
            assert forall|i: int| from + 1 <= i < args.len() implies (next.contains_key((#[trigger] args[i]).name)
                <==> bound.contains_key(args[i].name)) by {
                assert(args[i].name != args[from].name);
            }
            if settled(args, bound, from, defaults) is Err {
                let e = settled(args, bound, from, defaults)->Err_0;
                let i = choose|i: int|
                    #[trigger] missing_at(args, next, from + 1, defaults, i) && e == ErrorView::MissingRequired(
                        args[i].name,
                    );
                assert(missing_at(args, bound, from, defaults, i));
            }
        } else {
            assert(missing_at(args, bound, from, defaults, from));
        }
    }
}

/// When the completeness check behind the loop succeeds, for a schema that
/// keeps its invariant: exactly when every required positional argument is
/// bound and every named argument is bound or has a default.
pub proof fn lemma_finished_succeeds(cmd: CommandView, bound: Map<Seq<char>, ValueView>)
    requires
        cmd.wf(),
    ensures
        finished(cmd, bound) is Ok <==> {
            &&& forall|i: int| 0 <= i < cmd.required.len() ==> bound.contains_key((#[trigger] cmd.required[i]).name)
            &&& forall|i: int|
                0 <= i < cmd.named.len() ==> bound.contains_key((#[trigger] cmd.named[i]).name)
                    || cmd.named[i].default is Some
        },
{
    lemma_settled_succeeds(cmd.required, bound, 0, false);
    lemma_settled_domain(cmd.required, bound, 0, false);
    if settled(cmd.required, bound, 0, false) is Ok {
        lemma_settled_succeeds(cmd.optional, bound, 0, true);
        assert(settled(cmd.optional, bound, 0, true) is Ok);
        let filled = settled(cmd.optional, bound, 0, true)->Ok_0;
        lemma_settled_domain(cmd.optional, bound, 0, true);
        lemma_settled_succeeds(cmd.named, filled, 0, true);
        assert forall|i: int| 0 <= i < cmd.named.len() implies (filled.contains_key((#[trigger] cmd.named[i]).name)
            <==> bound.contains_key(cmd.named[i].name)) by {
            let name = cmd.named[i].name;
            if names_from(cmd.optional, 0).contains(name) {
                let j = choose|j: int| 0 <= j < cmd.optional.len() && 0 <= j && (#[trigger] cmd.optional[j]).name == name;
                assert(cmd.optional[j].name != cmd.named[i].name);
            }
        }
    }
}

/// A step binds the name of a declared argument and nothing else, and keeps
/// what was bound under other names.
pub proof fn lemma_step_binds_declared(cmd: CommandView, tokens: Seq<TokenView>, st: Progress)
    requires
        0 <= st.pos < tokens.len(),
    ensures
        step(cmd, tokens, st) matches Ok(next) ==> exists|name: Seq<char>, v: ValueView|
            cmd.declares(name) && next.bound == #[trigger] st.bound.insert(name, v),
{
    match step(cmd, tokens, st) {
        Ok(next) => {
            if 0 <= st.required_pos < cmd.required.len() {
                let arg = cmd.required[st.required_pos];
                assert(names_hold(cmd.required, arg.name));
                assert(next.bound == st.bound.insert(arg.name, next.bound[arg.name]));
            } else {
                lemma_named_index(cmd.named, tokens[st.pos].folded, 0);
                match named_index(cmd.named, tokens[st.pos].folded, 0) {
                    Some(i) => {
                        let arg = cmd.named[i];
                        assert(names_hold(cmd.named, arg.name));
                        assert(next.bound == st.bound.insert(arg.name, next.bound[arg.name]));
                    },
                    None => {
                        let arg = cmd.optional[st.optional_pos];
                        assert(names_hold(cmd.optional, arg.name));
                        assert(next.bound == st.bound.insert(arg.name, next.bound[arg.name]));
                    },
                }
            }
        },
        Err(_) => {},
    }
}

/// The consumption loop binds declared names only.
pub proof fn lemma_consumed_binds_declared(cmd: CommandView, tokens: Seq<TokenView>, st: Progress)
    requires
        st.bound.dom().subset_of(cmd.declared_names()),
    ensures
        consumed(cmd, tokens, st) matches Ok(bound) ==> bound.dom().subset_of(cmd.declared_names()),
    decreases
            (if st.pos < tokens.len() {
                tokens.len() - st.pos
            } else {
                0
            }),
{
    if 0 <= st.pos < tokens.len() {
        match step(cmd, tokens, st) {
            Ok(next) => {
                crate::parse::lemma_step_advances(cmd, tokens, st);
                lemma_step_binds_declared(cmd, tokens, st);
                lemma_consumed_binds_declared(cmd, tokens, next);
            },
            Err(_) => {},
        }
    }
}

/// What the completeness check leaves behind when it succeeds: every
/// argument it went through is bound, nothing else is added, and what was
/// bound before keeps its value. Without defaults nothing changes at all.
pub proof fn lemma_settled_domain(args: Seq<ArgView>, bound: Map<Seq<char>, ValueView>, from: int, defaults: bool)
    requires
        0 <= from,
    ensures
        settled(args, bound, from, defaults) matches Ok(m) ==> {
            &&& m.dom() =~= bound.dom().union(names_from(args, from))
            &&& forall|k: Seq<char>| bound.contains_key(k) ==> #[trigger] m[k] == bound[k]
            &&& !defaults ==> m == bound
        },
    decreases args.len() - from,
{
    if from < args.len() {
        let name = args[from].name;
        let rest = names_from(args, from + 1);
        assert(names_from(args, from) =~= rest.insert(name)) by {
            assert forall|k: Seq<char>| names_from(args, from).contains(k) implies rest.insert(name).contains(k) by {
                let i = choose|i: int| from <= i < args.len() && 0 <= i && (#[trigger] args[i]).name == k;
                if i != from {
                    assert(from + 1 <= i && args[i].name == k);
                }
            }
            assert forall|k: Seq<char>| rest.insert(name).contains(k) implies names_from(args, from).contains(k) by {
                if k == name {
                    assert(args[from].name == k);
                } else {
                    let i = choose|i: int| from + 1 <= i < args.len() && 0 <= i && (#[trigger] args[i]).name == k;
                    assert(from <= i && args[i].name == k);
                }
            }
        }
        if bound.contains_key(name) {
            lemma_settled_domain(args, bound, from + 1, defaults);
        } else if defaults && args[from].default is Some {
            lemma_settled_domain(args, bound.insert(name, args[from].default->Some_0), from + 1, defaults);
        }
    } else {
        assert(names_from(args, from) =~= Set::<Seq<char>>::empty());
    }
}

/// An argument that the completeness check finds unbound comes out with its
/// default, provided no argument in front of it has the same name.
pub proof fn lemma_settled_default(
    args: Seq<ArgView>,
    bound: Map<Seq<char>, ValueView>,
    from: int,
    i: int,
)
    requires
        0 <= from <= i < args.len(),
        !bound.contains_key(args[i].name),
        forall|j: int| from <= j < i ==> (#[trigger] args[j]).name != args[i].name,
    ensures
        settled(args, bound, from, true) matches Ok(m) ==> args[i].default is Some && m[args[i].name]
            == args[i].default->Some_0,
    decreases i - from,
{
    let name = args[from].name;
    if from == i {
        if args[i].default is Some {
            let d = args[i].default->Some_0;
            lemma_settled_domain(args, bound.insert(name, d), from + 1, true);
        }
    } else if bound.contains_key(name) {
        lemma_settled_default(args, bound, from + 1, i);
    } else if args[from].default is Some {
        lemma_settled_default(args, bound.insert(name, args[from].default->Some_0), from + 1, i);
    }
}

/// The names of a list of arguments from its start are the names it holds.
pub proof fn lemma_names_from_start(args: Seq<ArgView>)
    ensures
        forall|name: Seq<char>| names_from(args, 0).contains(name) <==> names_hold(args, name),
{
    assert forall|name: Seq<char>| names_from(args, 0).contains(name) implies names_hold(args, name) by {
        let i = choose|i: int| 0 <= i < args.len() && 0 <= i && (#[trigger] args[i]).name == name;
        assert(args[i].name == name);
    }
    assert forall|name: Seq<char>| names_hold(args, name) implies names_from(args, 0).contains(name) by {
        let i = choose|i: int| 0 <= i < args.len() && (#[trigger] args[i]).name == name;
        assert(0 <= i && args[i].name == name);
    }
}

/// A successful parse binds every declared argument, of all three
/// categories, and no other name: the result is never partially filled.
pub proof fn lemma_parsed_is_complete(cmd: CommandView, tokens: Seq<TokenView>)
    ensures
        parsed(cmd, tokens) matches Ok(m) ==> m.dom() =~= cmd.declared_names(),
{
    match parsed(cmd, tokens) {
        Ok(m) => {
            let bound = consumed(cmd, tokens, initial_progress())->Ok_0;
            lemma_consumed_binds_declared(cmd, tokens, initial_progress());
            let checked = settled(cmd.required, bound, 0, false)->Ok_0;
            let filled = settled(cmd.optional, checked, 0, true)->Ok_0;
            lemma_settled_domain(cmd.required, bound, 0, false);
            lemma_settled_domain(cmd.optional, checked, 0, true);
            lemma_settled_domain(cmd.named, filled, 0, true);
            lemma_names_from_start(cmd.required);
            lemma_names_from_start(cmd.optional);
            lemma_names_from_start(cmd.named);
            assert forall|k: Seq<char>| m.dom().contains(k) implies cmd.declared_names().contains(k) by {
                if !bound.dom().contains(k) {
                    assert(names_from(cmd.required, 0).contains(k) || names_from(cmd.optional, 0).contains(k)
                        || names_from(cmd.named, 0).contains(k));
                }
            }
            assert forall|k: Seq<char>| cmd.declared_names().contains(k) implies m.dom().contains(k) by {
                assert(cmd.declares(k));
                if names_hold(cmd.required, k) {
                    assert(names_from(cmd.required, 0).contains(k));
                    assert(checked.dom().contains(k));
                    assert(filled.dom().contains(k));
                } else if names_hold(cmd.optional, k) {
                    assert(names_from(cmd.optional, 0).contains(k));
                    assert(filled.dom().contains(k));
                } else {
                    assert(names_from(cmd.named, 0).contains(k));
                }
            }
        },
        Err(_) => {},
    }
}

/// The names of all declared arguments: required, then optional, then named.
pub open spec fn all_names(cmd: CommandView) -> Seq<Seq<char>> {
    Seq::new(
        cmd.required.len() + cmd.optional.len() + cmd.named.len(),
        |i: int|
            if i < cmd.required.len() {
                cmd.required[i].name
            } else if i < cmd.required.len() + cmd.optional.len() {
                cmd.optional[i - cmd.required.len()].name
            } else {
                cmd.named[i - cmd.required.len() - cmd.optional.len()].name
            },
    )
}

/// A schema that keeps its invariant declares as many names as it has
/// arguments.
pub proof fn lemma_declared_count(cmd: CommandView)
    requires
        cmd.wf(),
    ensures
        cmd.declared_names().finite(),
        cmd.declared_names().len() == cmd.required.len() + cmd.optional.len() + cmd.named.len(),
{
    let names = all_names(cmd);
    let r = cmd.required.len() as int;
    let o = cmd.optional.len() as int;
    assert forall|a: int, b: int| 0 <= a < names.len() && 0 <= b < names.len() && a != b implies names[a]
        != names[b] by {
        if a < r {
            if b < r {
                assert(cmd.required[a].name != cmd.required[b].name);
            } else if b < r + o {
                assert(cmd.required[a].name != cmd.optional[b - r].name);
            } else {
                assert(cmd.required[a].name != cmd.named[b - r - o].name);
            }
        } else if a < r + o {
            if b < r {
                assert(cmd.required[b].name != cmd.optional[a - r].name);
            } else if b < r + o {
                assert(cmd.optional[a - r].name != cmd.optional[b - r].name);
            } else {
                assert(cmd.optional[a - r].name != cmd.named[b - r - o].name);
            }
        } else {
            if b < r {
                assert(cmd.required[b].name != cmd.named[a - r - o].name);
            } else if b < r + o {
                assert(cmd.optional[b - r].name != cmd.named[a - r - o].name);
            } else {
                assert(cmd.named[a - r - o].name != cmd.named[b - r - o].name);
            }
        }
    }
    assert forall|k: Seq<char>| cmd.declared_names().contains(k) implies names.to_set().contains(k) by {
        if names_hold(cmd.required, k) {
            let i = choose|i: int| 0 <= i < cmd.required.len() && (#[trigger] cmd.required[i]).name == k;
            assert(names[i] == k);
        } else if names_hold(cmd.optional, k) {
            let i = choose|i: int| 0 <= i < cmd.optional.len() && (#[trigger] cmd.optional[i]).name == k;
            assert(names[r + i] == k);
        } else {
            let i = choose|i: int| 0 <= i < cmd.named.len() && (#[trigger] cmd.named[i]).name == k;
            assert(names[r + o + i] == k);
        }
    }
    assert forall|k: Seq<char>| names.to_set().contains(k) implies cmd.declared_names().contains(k) by {
        let i = choose|i: int| 0 <= i < names.len() && names[i] == k;
        if i < r {
            assert(cmd.required[i].name == k);
        } else if i < r + o {
            assert(cmd.optional[i - r].name == k);
        } else {
            assert(cmd.named[i - r - o].name == k);
        }
    }
    assert(cmd.declared_names() =~= names.to_set());
    vstd::seq_lib::seq_to_set_is_finite(names);
    names.unique_seq_to_set();
}

/// A successful parse against a schema that keeps its invariant holds
/// exactly one entry for each declared argument.
pub proof fn lemma_one_entry_per_argument(cmd: CommandView, tokens: Seq<TokenView>)
    requires
        cmd.wf(),
    ensures
        parsed(cmd, tokens) matches Ok(m) ==> m.dom() =~= cmd.declared_names() && m.dom().finite() && m.dom().len()
            == cmd.required.len() + cmd.optional.len() + cmd.named.len(),
{
    lemma_parsed_is_complete(cmd, tokens);
    lemma_declared_count(cmd);
}

/// Parsing is a function of the schema and the tokens: two parses of equal
/// token sequences against equal schemas end in equal results, value for
/// value, or in the same error.
pub proof fn lemma_parse_repeatable(
    first: Command,
    second: Command,
    tokens_a: Seq<Token>,
    tokens_b: Seq<Token>,
    r_a: Result<ParseResult, CmdError>,
    r_b: Result<ParseResult, CmdError>,
)
    requires
        first@ == second@,
        token_views(tokens_a) == token_views(tokens_b),
        outcome_view(r_a) == parsed(first@, token_views(tokens_a)),
        outcome_view(r_b) == parsed(second@, token_views(tokens_b)),
    ensures
        outcome_view(r_a) == outcome_view(r_b),
{
}

/// An optional positional argument that the tokens did not supply comes out
/// of a successful parse with its declared default.
pub proof fn lemma_omitted_optional_takes_default(cmd: CommandView, tokens: Seq<TokenView>, i: int)
    requires
        cmd.wf(),
        0 <= i < cmd.optional.len(),
        consumed(cmd, tokens, initial_progress()) matches Ok(bound) && !bound.contains_key(cmd.optional[i].name),
    ensures
        parsed(cmd, tokens) matches Ok(m) ==> cmd.optional[i].default is Some && m[cmd.optional[i].name]
            == cmd.optional[i].default->Some_0,
{
    let bound = consumed(cmd, tokens, initial_progress())->Ok_0;
    match parsed(cmd, tokens) {
        Ok(m) => {
            let checked = settled(cmd.required, bound, 0, false)->Ok_0;
            let filled = settled(cmd.optional, checked, 0, true)->Ok_0;
            lemma_settled_domain(cmd.required, bound, 0, false);
            lemma_settled_default(cmd.optional, checked, 0, i);
            lemma_settled_domain(cmd.optional, checked, 0, true);
            assert(names_from(cmd.optional, 0).contains(cmd.optional[i].name));
            lemma_settled_domain(cmd.named, filled, 0, true);
        },
        Err(_) => {},
    }
}

/// A named argument that the tokens did not supply comes out of a successful
/// parse with its declared default.
pub proof fn lemma_omitted_named_takes_default(cmd: CommandView, tokens: Seq<TokenView>, i: int)
    requires
        cmd.wf(),
        0 <= i < cmd.named.len(),
        consumed(cmd, tokens, initial_progress()) matches Ok(bound) && !bound.contains_key(cmd.named[i].name),
    ensures
        parsed(cmd, tokens) matches Ok(m) ==> cmd.named[i].default is Some && m[cmd.named[i].name]
            == cmd.named[i].default->Some_0,
{
    let bound = consumed(cmd, tokens, initial_progress())->Ok_0;
    let name = cmd.named[i].name;
    match parsed(cmd, tokens) {
        Ok(m) => {
            let checked = settled(cmd.required, bound, 0, false)->Ok_0;
            let filled = settled(cmd.optional, checked, 0, true)->Ok_0;
            lemma_settled_domain(cmd.required, bound, 0, false);
            lemma_settled_domain(cmd.optional, checked, 0, true);
            assert(!names_from(cmd.optional, 0).contains(name)) by {
                if names_from(cmd.optional, 0).contains(name) {
                    let j = choose|j: int| 0 <= j < cmd.optional.len() && 0 <= j && (#[trigger] cmd.optional[j]).name == name;
                    assert(cmd.optional[j].name != cmd.named[i].name);
                }
            }
            assert(!filled.contains_key(name));
            lemma_settled_default(cmd.named, filled, 0, i);
        },
        Err(_) => {},
    }
}

/// While a required positional argument is unmatched, the next token goes
/// to it, whatever named and optional arguments the schema declares.
pub proof fn lemma_required_comes_first(cmd: CommandView, other: CommandView, tokens: Seq<TokenView>, st: Progress)
    requires
        0 <= st.required_pos < cmd.required.len(),
        other.required == cmd.required,
    ensures
        step(cmd, tokens, st) == step(other, tokens, st),
        step(cmd, tokens, st) matches Ok(next) ==> next.required_pos == st.required_pos + 1 && next.optional_pos
            == st.optional_pos && next.accepting_optionals == st.accepting_optionals,
{
}

/// The latch: a step that recognises a named argument stops the matching of
/// optional positionals, and once stopped it stays stopped, so that no
/// optional positional is matched from then on.
pub proof fn lemma_latch(cmd: CommandView, tokens: Seq<TokenView>, st: Progress)
    requires
        0 <= st.pos < tokens.len(),
        st.required_pos >= cmd.required.len(),
    ensures
        step(cmd, tokens, st) matches Ok(next) ==> {
            &&& named_index(cmd.named, tokens[st.pos].folded, 0) is Some ==> !next.accepting_optionals
            &&& !st.accepting_optionals ==> !next.accepting_optionals && next.optional_pos == st.optional_pos
        },
{
}

/// With no named argument declared and no positional left to match, the
/// next token is unexpected, and the parse fails with it.
pub proof fn lemma_trailing_token_unexpected(cmd: CommandView, tokens: Seq<TokenView>, st: Progress)
    requires
        0 <= st.pos < tokens.len(),
        cmd.named.len() == 0,
        st.required_pos >= cmd.required.len(),
        !st.accepting_optionals || st.optional_pos >= cmd.optional.len(),
    ensures
        consumed(cmd, tokens, st) == Err::<Map<Seq<char>, ValueView>, ErrorView>(
            ErrorView::UnexpectedArgument(tokens[st.pos].text),
        ),
{
}

} // verus!
