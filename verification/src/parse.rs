//! The parsing rules, and the parser that follows them.

use vstd::prelude::*;
use crate::error::{CmdError, ErrorView};
use crate::laws::lemma_one_entry_per_argument;
use crate::outcome::ParseResult;
use crate::schema::{arg_views, Arg, ArgView, Command, CommandView};
use crate::token::{scan_signed, scan_unsigned, signed_of, token_views, unsigned_of, Token, TokenView};
use crate::value::{lemma_vector_view, value_views, ArgType, Value, ValueView};

verus! {

/// One token decoded as a scalar of type `kind`: a string passes through, a
/// number is read strictly or rejected with the token and the type.
pub open spec fn decoded_token(kind: ArgType, token: TokenView) -> Result<ValueView, ErrorView> {
    match kind {
        ArgType::String => Ok(ValueView::String(token.text)),
        ArgType::UnsignedInteger => match unsigned_of(token.text) {
            Some(n) => Ok(ValueView::UnsignedInteger(n)),
            None => Err(ErrorView::InvalidNumber(token.text, kind)),
        },
        ArgType::SignedInteger => match signed_of(token.text) {
            Some(n) => Ok(ValueView::SignedInteger(n)),
            None => Err(ErrorView::InvalidNumber(token.text, kind)),
        },
        ArgType::Float => match token.float_bits {
            Some(bits) => Ok(ValueView::Float(bits)),
            None => Err(ErrorView::InvalidNumber(token.text, kind)),
        },
    }
}

/// The elements of a vector, decoded one token after the other: `done` holds
/// the elements decoded so far, `at` is the next token and `left` the number
/// of elements still to come. The first token that is missing or malformed
/// decides the error.
pub open spec fn decoded_elements(
    kind: ArgType,
    tokens: Seq<TokenView>,
    at: int,
    left: nat,
    done: Seq<ValueView>,
) -> Result<Seq<ValueView>, ErrorView>
    decreases left,
{
    if left == 0 {
        Ok(done)
    } else if at < 0 || at >= tokens.len() {
        Err(ErrorView::WrongArity)
    } else {
        match decoded_token(kind, tokens[at]) {
            Err(e) => Err(e),
            Ok(v) => decoded_elements(kind, tokens, at + 1, (left - 1) as nat, done.push(v)),
        }
    }
}

/// One occurrence of `arg` decoded from the tokens that begin at `start`: a
/// scalar from one token, a vector from as many tokens as its length.
pub open spec fn decoded_arg(arg: ArgView, tokens: Seq<TokenView>, start: int) -> Result<ValueView, ErrorView> {
    if arg.is_vector() {
        match decoded_elements(arg.kind, tokens, start, arg.len, Seq::empty()) {
            Ok(items) => Ok(ValueView::Vector(items)),
            Err(e) => Err(e),
        }
    } else if start < 0 || start >= tokens.len() {
        Err(ErrorView::WrongArity)
    } else {
        decoded_token(arg.kind, tokens[start])
    }
}

/// The first named argument at or behind `from` whose lower-case name is `folded`.
pub open spec fn named_index(named: Seq<ArgView>, folded: Seq<char>, from: int) -> Option<int>
    decreases named.len() - from,
{
    if from < 0 || from >= named.len() {
        None
    } else if named[from].folded == folded {
        Some(from)
    } else {
        named_index(named, folded, from + 1)
    }
}

/// Where a parse stands between two steps.
pub ghost struct Progress {
    /// The index of the next token.
    pub pos: int,
    /// How many required positional arguments are matched.
    pub required_pos: int,
    /// How many optional positional arguments are matched.
    pub optional_pos: int,
    /// Whether optional positional arguments can still be matched: true
    /// until the first named argument is recognised, false from then on.
    pub accepting_optionals: bool,
    /// The values stored so far, by argument name.
    pub bound: Map<Seq<char>, ValueView>,
}

/// The state in which the token behind the command's name is looked at.
pub open spec fn initial_progress() -> Progress {
    Progress {
        pos: 1,
        required_pos: 0,
        optional_pos: 0,
        accepting_optionals: true,
        bound: Map::empty(),
    }
}

/// One step of the consumption loop, on the token at `st.pos`.
///
/// While a required positional argument is unmatched the token belongs to
/// it. Otherwise a token that names a named argument introduces that
/// argument's value and ends the matching of optional positionals for good;
/// any other token goes to the next optional positional argument if these
/// are still accepted and one is left, and is unexpected if not.
pub open spec fn step(cmd: CommandView, tokens: Seq<TokenView>, st: Progress) -> Result<Progress, ErrorView>
    recommends
        0 <= st.pos < tokens.len(),
{
    if 0 <= st.required_pos < cmd.required.len() {
        let arg = cmd.required[st.required_pos];
        match decoded_arg(arg, tokens, st.pos) {
            Err(e) => Err(e),
            Ok(v) => Ok(
                Progress {
                    pos: st.pos + arg.arity(),
                    required_pos: st.required_pos + 1,
                    bound: st.bound.insert(arg.name, v),
                    ..st
                },
            ),
        }
    } else {
        match named_index(cmd.named, tokens[st.pos].folded, 0) {
            Some(i) => {
                let arg = cmd.named[i];
                match decoded_arg(arg, tokens, st.pos + 1) {
                    Err(e) => Err(e),
                    Ok(v) => Ok(
                        Progress {
                            pos: st.pos + 1 + arg.arity(),
                            accepting_optionals: false,
                            bound: st.bound.insert(arg.name, v),
                            ..st
                        },
                    ),
                }
            },
            None => if st.accepting_optionals && 0 <= st.optional_pos < cmd.optional.len() {
                let arg = cmd.optional[st.optional_pos];
                match decoded_arg(arg, tokens, st.pos) {
                    Err(e) => Err(e),
                    Ok(v) => Ok(
                        Progress {
                            pos: st.pos + arg.arity(),
                            optional_pos: st.optional_pos + 1,
                            bound: st.bound.insert(arg.name, v),
                            ..st
                        },
                    ),
                }
            } else {
                Err(ErrorView::UnexpectedArgument(tokens[st.pos].text))
            },
        }
    }
}

/// The values stored when the loop has run from `st` to the end of the
/// tokens, or the error of the first step that fails.
pub open spec fn consumed(cmd: CommandView, tokens: Seq<TokenView>, st: Progress) -> Result<
    Map<Seq<char>, ValueView>,
    ErrorView,
>
    decreases
            (if st.pos < tokens.len() {
                tokens.len() - st.pos
            } else {
                0
            }),
    via consumed_terminates
{
    if st.pos < 0 || st.pos >= tokens.len() {
        Ok(st.bound)
    } else {
        match step(cmd, tokens, st) {
            Err(e) => Err(e),
            Ok(next) => consumed(cmd, tokens, next),
        }
    }
}

/// Every step that succeeds moves past at least one token.
pub proof fn lemma_step_advances(cmd: CommandView, tokens: Seq<TokenView>, st: Progress)
    ensures
        step(cmd, tokens, st) matches Ok(next) ==> next.pos > st.pos,
{
}

#[via_fn]
proof fn consumed_terminates(cmd: CommandView, tokens: Seq<TokenView>, st: Progress) {
    lemma_step_advances(cmd, tokens, st);
}

/// The completeness check on the arguments `args[from..]`, in order. An
/// argument that is bound stays as it is. One that is not bound takes a copy
/// of its default where `defaults` allows it and it has one; otherwise the
/// argument is missing.
pub open spec fn settled(args: Seq<ArgView>, bound: Map<Seq<char>, ValueView>, from: int, defaults: bool) -> Result<
    Map<Seq<char>, ValueView>,
    ErrorView,
>
    decreases args.len() - from,
{
    if from < 0 || from >= args.len() {
        Ok(bound)
    } else if bound.contains_key(args[from].name) {
        settled(args, bound, from + 1, defaults)
    } else if defaults && args[from].default is Some {
        settled(args, bound.insert(args[from].name, args[from].default->Some_0), from + 1, defaults)
    } else {
        Err(ErrorView::MissingRequired(args[from].name))
    }
}

/// The completeness check behind the loop: the required positionals must be
/// bound; then the optional positionals and the named arguments are filled
/// from their defaults.
pub open spec fn finished(cmd: CommandView, bound: Map<Seq<char>, ValueView>) -> Result<
    Map<Seq<char>, ValueView>,
    ErrorView,
> {
    match settled(cmd.required, bound, 0, false) {
        Err(e) => Err(e),
        Ok(checked) => match settled(cmd.optional, checked, 0, true) {
            Err(e) => Err(e),
            Ok(filled) => settled(cmd.named, filled, 0, true),
        },
    }
}

/// What parsing `tokens` against `cmd` yields: the value of every declared
/// argument by name, or the first error.
pub open spec fn parsed(cmd: CommandView, tokens: Seq<TokenView>) -> Result<Map<Seq<char>, ValueView>, ErrorView> {
    if tokens.len() == 0 {
        Err(ErrorView::WrongArity)
    } else if tokens[0].folded != cmd.folded_name {
        Err(ErrorView::NameMismatch(cmd.name, tokens[0].text))
    } else {
        match consumed(cmd, tokens, initial_progress()) {
            Err(e) => Err(e),
            Ok(bound) => finished(cmd, bound),
        }
    }
}

/// The view of a decoding's outcome.
pub open spec fn value_outcome(r: Result<Value, CmdError>) -> Result<ValueView, ErrorView> {
    match r {
        Ok(v) => Ok(v@),
        Err(e) => Err(e@),
    }
}

/// The view of a parse's outcome.
pub open spec fn outcome_view(r: Result<ParseResult, CmdError>) -> Result<Map<Seq<char>, ValueView>, ErrorView> {
    match r {
        Ok(res) => Ok(res@),
        Err(e) => Err(e@),
    }
}

/// Decodes one token as a scalar of type `kind`.
pub fn decode_token(kind: ArgType, token: &Token) -> (r: Result<Value, CmdError>)
    ensures
        value_outcome(r) == decoded_token(kind, token@),
{
    match kind {
        ArgType::String => Ok(Value::String(token.text().clone())),
        ArgType::UnsignedInteger => match scan_unsigned(token.text().as_str()) {
            Some(n) => Ok(Value::UnsignedInteger(n)),
            None => Err(CmdError::InvalidNumber(token.text().clone(), kind)),
        },
        ArgType::SignedInteger => match scan_signed(token.text().as_str()) {
            Some(n) => Ok(Value::SignedInteger(n)),
            None => Err(CmdError::InvalidNumber(token.text().clone(), kind)),
        },
        ArgType::Float => match token.float_bits() {
            Some(bits) => Ok(Value::Float(bits)),
            None => Err(CmdError::InvalidNumber(token.text().clone(), kind)),
        },
    }
}

/// Decodes one occurrence of `arg` from the tokens that begin at `start`.
/// On success the tokens `start .. start + arity` are the ones consumed.
pub fn decode_arg(arg: &Arg, tokens: &Vec<Token>, start: usize) -> (r: Result<Value, CmdError>)
    ensures
        value_outcome(r) == decoded_arg(arg@, token_views(tokens@), start as int),
        r is Ok ==> start + arg@.arity() <= tokens@.len(),
{
    let ghost tv = token_views(tokens@);
    let count = arg.len();
    let kind = arg.kind();
    if start >= tokens.len() {
        return Err(CmdError::WrongArity);
    }
    if count > 1 {
        let mut items: Vec<Value> = Vec::new();
        let mut k: usize = 0;
        assert(value_views(items@) =~= Seq::<ValueView>::empty());
        while k < count
            invariant
                tv == token_views(tokens@),
                kind == arg@.kind,
                count == arg@.len,
                count > 1,
                k <= count,
                start + k <= tokens@.len(),
                decoded_elements(kind, tv, start + k, (count - k) as nat, value_views(items@))
                    == decoded_elements(kind, tv, start as int, count as nat, Seq::empty()),
            decreases count - k,
        {
            if k >= tokens.len() - start {
                return Err(CmdError::WrongArity);
            }
            match decode_token(kind, &tokens[start + k]) {
                Err(e) => {
                    return Err(e);
                },
                Ok(v) => {
                    let ghost before = value_views(items@);
                    items.push(v);
                    assert(value_views(items@) =~= before.push(v@));
                },
            }
            k = k + 1;
        }
        let whole = Value::Vector(items);
        proof {
            lemma_vector_view(whole);
        }
        Ok(whole)
    } else {
        decode_token(kind, &tokens[start])
    }
}

/// Finds the first named argument whose lower-case name is `folded`.
pub fn find_named(named: &Vec<Arg>, folded: &String) -> (r: Option<usize>)
    ensures
        match r {
            Some(i) => named_index(arg_views(named@), folded@, 0) == Some(i as int) && i < named@.len(),
            None => named_index(arg_views(named@), folded@, 0) is None,
        },
{
    let ghost views = arg_views(named@);
    let mut i: usize = 0;
    while i < named.len()
        invariant
            views == arg_views(named@),
            i <= named@.len(),
            named_index(views, folded@, i as int) == named_index(views, folded@, 0),
        decreases named@.len() - i,
    {
        if *named[i].folded() == *folded {
            return Some(i);
        }
        i = i + 1;
    }
    None
}

/// Runs the completeness check on `args`, filling `res` from the defaults
/// where `defaults` allows it.
fn settle(args: &Vec<Arg>, res: &mut ParseResult, defaults: bool) -> (r: Result<(), CmdError>)
    ensures
        match settled(arg_views(args@), old(res)@, 0, defaults) {
            Ok(m) => r is Ok && final(res)@ == m,
            Err(e) => r is Err && r->Err_0@ == e,
        },
{
    let ghost views = arg_views(args@);
    let ghost start = res@;
    let mut i: usize = 0;
    while i < args.len()
        invariant
            views == arg_views(args@),
            start == old(res)@,
            i <= args@.len(),
            settled(views, res@, i as int, defaults) == settled(views, start, 0, defaults),
        decreases args@.len() - i,
    {
        let arg = &args[i];
        assert(views[i as int] == arg@);
        if !res.contains_key(arg.name().as_str()) {
            if !defaults {
                return Err(CmdError::MissingRequired(arg.name().clone()));
            }
            match arg.default() {
                Some(d) => {
                    res.insert(arg.name().clone(), d.deep_copy());
                },
                None => {
                    return Err(CmdError::MissingRequired(arg.name().clone()));
                },
            }
        }
        i = i + 1;
    }
    Ok(())
}

impl Command {
    /// Parses one invocation: the command's name, then the arguments.
    ///
    /// Returns the value of every declared argument by name, or the first
    /// error; nothing is returned half filled.
    pub fn parse_args(&self, raw_args: Vec<Token>) -> (r: Result<ParseResult, CmdError>)
        ensures
            outcome_view(r) == parsed(self@, token_views(raw_args@)),
            self@.wf(),
            r matches Ok(res) ==> {
                &&& res@.dom() =~= self@.declared_names()
                &&& res@.dom().finite()
                &&& res@.dom().len() == self@.required.len() + self@.optional.len() + self@.named.len()
            },
    {
        let ghost cmd = self@;
        let ghost tv = token_views(raw_args@);
        proof {
            use_type_invariant(self);
            lemma_one_entry_per_argument(cmd, tv);
        }
        if raw_args.len() == 0 {
            return Err(CmdError::WrongArity);
        }
        if !(*raw_args[0].folded() == *self.folded_name()) {
            return Err(CmdError::NameMismatch(self.name().clone(), raw_args[0].text().clone()));
        }
        let required = self.required_args();
        let optional = self.optional_args();
        let named = self.named_args();
        let mut res = ParseResult::new();
        let mut pos: usize = 1;
        let mut required_pos: usize = 0;
        let mut optional_pos: usize = 0;
        let mut accepting_optionals = true;
        while pos < raw_args.len()
            invariant
                cmd == self@,
                cmd.wf(),
                tv == token_views(raw_args@),
                tv[0].folded == cmd.folded_name,
                arg_views(required@) == cmd.required,
                arg_views(optional@) == cmd.optional,
                arg_views(named@) == cmd.named,
                1 <= pos <= raw_args@.len(),
                required_pos <= required@.len(),
                optional_pos <= optional@.len(),
                consumed(
                    cmd,
                    tv,
                    Progress {
                        pos: pos as int,
                        required_pos: required_pos as int,
                        optional_pos: optional_pos as int,
                        accepting_optionals,
                        bound: res@,
                    },
                ) == consumed(cmd, tv, initial_progress()),
            decreases raw_args@.len() - pos,
        {
            let ghost st = Progress {
                pos: pos as int,
                required_pos: required_pos as int,
                optional_pos: optional_pos as int,
                accepting_optionals,
                bound: res@,
            };
            assert(tv[pos as int] == raw_args@[pos as int]@);
            if required_pos < required.len() {
                let arg = &required[required_pos];
                assert(cmd.required[required_pos as int] == arg@);
                match decode_arg(arg, &raw_args, pos) {
                    Err(e) => {
                        return Err(e);
                    },
                    Ok(v) => {
                        res.insert(arg.name().clone(), v);
                        pos = pos + arg.arity();
                        required_pos = required_pos + 1;
                    },
                }
            } else {
                match find_named(named, raw_args[pos].folded()) {
                    Some(i) => {
                        accepting_optionals = false;
                        let arg = &named[i];
                        assert(cmd.named[i as int] == arg@);
                        match decode_arg(arg, &raw_args, pos + 1) {
                            Err(e) => {
                                return Err(e);
                            },
                            Ok(v) => {
                                res.insert(arg.name().clone(), v);
                                pos = pos + 1 + arg.arity();
                            },
                        }
                    },
                    None => {
                        if accepting_optionals && optional_pos < optional.len() {
                            let arg = &optional[optional_pos];
                            assert(cmd.optional[optional_pos as int] == arg@);
                            match decode_arg(arg, &raw_args, pos) {
                                Err(e) => {
                                    return Err(e);
                                },
                                Ok(v) => {
                                    res.insert(arg.name().clone(), v);
                                    pos = pos + arg.arity();
                                    optional_pos = optional_pos + 1;
                                },
                            }
                        } else {
                            return Err(CmdError::UnexpectedArgument(raw_args[pos].text().clone()));
                        }
                    },
                }
            }
        }
        match settle(required, &mut res, false) {
            Err(e) => {
                return Err(e);
            },
            Ok(_) => {},
        }
        match settle(optional, &mut res, true) {
            Err(e) => {
                return Err(e);
            },
            Ok(_) => {},
        }
        match settle(named, &mut res, true) {
            Err(e) => {
                return Err(e);
            },
            Ok(_) => {},
        }
        Ok(res)
    }
}

} // verus!
