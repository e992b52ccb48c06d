//! The schema of a command: its name and its declared arguments.

use vstd::prelude::*;
use vstd::std_specs::cmp::PartialEqSpecImpl;
use crate::error::{CmdError, ErrorView};
use crate::token::{fold_case, lowercase_of};
use crate::value::{ArgType, Value, ValueView};

verus! {

/// How an argument is recognised in the token sequence.
#[derive(Clone, Copy, Debug, PartialEq, Eq, Structural)]
pub enum Category {
    /// By position; must be supplied.
    RequiredPositional,
    /// By position; falls back to its default.
    OptionalPositional,
    /// By its own name as a token in front of its value.
    Named,
}

/// One declared argument of a command.
#[derive(Debug)]
pub struct Arg {
    name: String,
    folded: String,
    kind: ArgType,
    len: usize,
    default: Option<Value>,
    kwarg: bool,
}

/// The mathematical content of an [`Arg`].
pub ghost struct ArgView {
    /// The name under which the value is stored.
    pub name: Seq<char>,
    /// The name in lower case: what a token is compared with.
    pub folded: Seq<char>,
    /// The type of each token of the argument.
    pub kind: ArgType,
    /// The declared number of tokens.
    pub len: nat,
    /// The value used when the argument is omitted.
    pub default: Option<ValueView>,
    /// Whether the argument is introduced by its name.
    pub kwarg: bool,
}

/// The view of an optional value.
pub open spec fn optional_view(v: Option<Value>) -> Option<ValueView> {
    match v {
        Some(x) => Some(x@),
        None => None,
    }
}

impl ArgView {
    /// The number of tokens that one occurrence consumes: the declared
    /// length, and one token where that is zero.
    pub open spec fn arity(self) -> nat {
        if self.len > 1 {
            self.len
        } else {
            1
        }
    }

    /// Whether the value is a vector: more than one token per occurrence.
    pub open spec fn is_vector(self) -> bool {
        self.len > 1
    }

    /// The category, decided by the naming flag and the presence of a default.
    pub open spec fn category(self) -> Category {
        if self.kwarg {
            Category::Named
        } else if self.default is None {
            Category::RequiredPositional
        } else {
            Category::OptionalPositional
        }
    }
}

impl View for Arg {
    type V = ArgView;

    closed spec fn view(&self) -> ArgView {
        ArgView {
            name: self.name@,
            folded: self.folded@,
            kind: self.kind,
            len: self.len as nat,
            default: optional_view(self.default),
            kwarg: self.kwarg,
        }
    }
}

impl Arg {
    /// Declares an argument. `kwarg` makes it a named argument; otherwise it
    /// is positional, required where `default` is `None` and optional where
    /// it is not.
    pub fn new(name: &str, kind: ArgType, len: usize, default: Option<Value>, kwarg: bool) -> (r: Arg)
        ensures
            r@ == (ArgView {
                name: name@,
                folded: lowercase_of(name@),
                kind,
                len: len as nat,
                default: optional_view(default),
                kwarg,
            }),
    {
        Arg { name: name.to_owned(), folded: fold_case(name), kind, len, default, kwarg }
    }

    /// The name under which the value is stored.
    pub fn name(&self) -> (r: &String)
        ensures
            r@ == self@.name,
    {
        &self.name
    }

    /// The name in lower case.
    pub fn folded(&self) -> (r: &String)
        ensures
            r@ == self@.folded,
    {
        &self.folded
    }

    /// The type of each token of the argument.
    pub fn kind(&self) -> (r: ArgType)
        ensures
            r == self@.kind,
    {
        self.kind
    }

    /// The declared number of tokens.
    pub fn len(&self) -> (r: usize)
        ensures
            r == self@.len,
    {
        self.len
    }

    /// The number of tokens that one occurrence consumes.
    pub fn arity(&self) -> (r: usize)
        ensures
            r == self@.arity(),
    {
        if self.len > 1 {
            self.len
        } else {
            1
        }
    }

    /// The value used when the argument is omitted.
    pub fn default(&self) -> (r: &Option<Value>)
        ensures
            optional_view(*r) == self@.default,
    {
        &self.default
    }

    /// Whether the argument is introduced by its name.
    pub fn kwarg(&self) -> (r: bool)
        ensures
            r == self@.kwarg,
    {
        self.kwarg
    }

    /// The category of the argument.
    pub fn category(&self) -> (r: Category)
        ensures
            r == self@.category(),
    {
        if self.kwarg {
            Category::Named
        } else if self.default.is_none() {
            Category::RequiredPositional
        } else {
            Category::OptionalPositional
        }
    }
}

impl PartialEq for Arg {
    /// Two declarations are equal when they agree in name, type, naming flag
    /// and in whether they have a default; the length and the default's
    /// value are not compared.
    fn eq(&self, other: &Arg) -> (r: bool) {
        self.name == other.name && self.kind == other.kind && self.default.is_none()
            == other.default.is_none() && self.kwarg == other.kwarg
    }
}

impl PartialEqSpecImpl for Arg {
    open spec fn obeys_eq_spec() -> bool {
        true
    }

    open spec fn eq_spec(&self, other: &Arg) -> bool {
        &&& self@.name == other@.name
        &&& self@.kind == other@.kind
        &&& (self@.default is None) == (other@.default is None)
        &&& self@.kwarg == other@.kwarg
    }
}

/// The views of a sequence of arguments, in order.
pub open spec fn arg_views(args: Seq<Arg>) -> Seq<ArgView> {
    Seq::new(args.len(), |i: int| args[i]@)
}

/// Whether one of `args` has the name `name`.
pub open spec fn names_hold(args: Seq<ArgView>, name: Seq<char>) -> bool {
    exists|i: int| 0 <= i < args.len() && (#[trigger] args[i]).name == name
}

/// Whether no two of `args` share a name.
pub open spec fn names_distinct(args: Seq<ArgView>) -> bool {
    forall|i: int, j: int|
        0 <= i < args.len() && 0 <= j < args.len() && i != j ==> (#[trigger] args[i]).name != (
        #[trigger] args[j]).name
}

/// Whether no argument of `a` shares its name with one of `b`.
pub open spec fn names_apart(a: Seq<ArgView>, b: Seq<ArgView>) -> bool {
    forall|i: int, j: int|
        0 <= i < a.len() && 0 <= j < b.len() ==> (#[trigger] a[i]).name != (#[trigger] b[j]).name
}

/// The mathematical content of a [`Command`].
pub ghost struct CommandView {
    /// The command's name as declared.
    pub name: Seq<char>,
    /// The name in lower case: what the first token is compared with.
    pub folded_name: Seq<char>,
    /// The required positional arguments, in matching order.
    pub required: Seq<ArgView>,
    /// The optional positional arguments, in matching order.
    pub optional: Seq<ArgView>,
    /// The named arguments, in declaration order.
    pub named: Seq<ArgView>,
}

impl CommandView {
    /// Whether an argument of that name is declared, in any category.
    pub open spec fn declares(self, name: Seq<char>) -> bool {
        names_hold(self.required, name) || names_hold(self.optional, name) || names_hold(
            self.named,
            name,
        )
    }

    /// The names of all declared arguments.
    pub open spec fn declared_names(self) -> Set<Seq<char>> {
        Set::new(|name: Seq<char>| self.declares(name))
    }

    /// The schema with `arg` added to the bucket of its category, behind
    /// the arguments that are already there.
    pub open spec fn with_arg(self, arg: ArgView) -> CommandView {
        match arg.category() {
            Category::Named => CommandView { named: self.named.push(arg), ..self },
            Category::RequiredPositional => CommandView { required: self.required.push(arg), ..self },
            Category::OptionalPositional => CommandView { optional: self.optional.push(arg), ..self },
        }
    }

    /// The invariant of a schema: every argument stands in the bucket of its
    /// category, and no name is declared twice, in one category or across them.
    pub open spec fn wf(self) -> bool {
        &&& forall|i: int| 0 <= i < self.required.len() ==> (#[trigger] self.required[i]).category() == Category::RequiredPositional
        &&& forall|i: int| 0 <= i < self.optional.len() ==> (#[trigger] self.optional[i]).category() == Category::OptionalPositional
        &&& forall|i: int| 0 <= i < self.named.len() ==> (#[trigger] self.named[i]).category() == Category::Named
        &&& names_distinct(self.required)
        &&& names_distinct(self.optional)
        &&& names_distinct(self.named)
        &&& names_apart(self.required, self.optional)
        &&& names_apart(self.required, self.named)
        &&& names_apart(self.optional, self.named)
    }
}

/// The definition of a command: its name and its arguments by category.
#[derive(Debug, PartialEq)]
pub struct Command {
    name: String,
    folded_name: String,
    required_args: Vec<Arg>,
    optional_args: Vec<Arg>,
    named_args: Vec<Arg>,
}

impl View for Command {
    type V = CommandView;

    closed spec fn view(&self) -> CommandView {
        CommandView {
            name: self.name@,
            folded_name: self.folded_name@,
            required: arg_views(self.required_args@),
            optional: arg_views(self.optional_args@),
            named: arg_views(self.named_args@),
        }
    }
}

/// Whether one of `args` has the name `name`.
fn holds_name(args: &Vec<Arg>, name: &String) -> (r: bool)
    ensures
        r == names_hold(arg_views(args@), name@),
{
    let mut i: usize = 0;
    while i < args.len()
        invariant
            i <= args@.len(),
            forall|j: int| 0 <= j < i ==> (#[trigger] arg_views(args@)[j]).name != name@,
        decreases args@.len() - i,
    {
        if args[i].name == *name {
            assert(arg_views(args@)[i as int].name == name@);
            return true;
        }
        i = i + 1;
    }
    false
}

impl Command {
    /// The invariant of every schema: see [`CommandView::wf`].
    #[verifier::type_invariant]
    pub open spec fn sound(self) -> bool {
        self@.wf()
    }

    /// An empty schema for the command `name`.
    pub fn new(name: &str) -> (r: Command)
        ensures
            r@ == (CommandView {
                name: name@,
                folded_name: lowercase_of(name@),
                required: Seq::<ArgView>::empty(),
                optional: Seq::<ArgView>::empty(),
                named: Seq::<ArgView>::empty(),
            }),
            r@.wf(),
    {
        let r = Command {
            name: name.to_owned(),
            folded_name: fold_case(name),
            required_args: Vec::new(),
            optional_args: Vec::new(),
            named_args: Vec::new(),
        };
        assert(r@.required =~= Seq::<ArgView>::empty());
        assert(r@.optional =~= Seq::<ArgView>::empty());
        assert(r@.named =~= Seq::<ArgView>::empty());
        r
    }

    /// The command's name as declared.
    pub fn name(&self) -> (r: &String)
        ensures
            r@ == self@.name,
    {
        &self.name
    }

    /// The command's name in lower case.
    pub fn folded_name(&self) -> (r: &String)
        ensures
            r@ == self@.folded_name,
    {
        &self.folded_name
    }

    /// The required positional arguments, in matching order.
    pub fn required_args(&self) -> (r: &Vec<Arg>)
        ensures
            arg_views(r@) == self@.required,
    {
        &self.required_args
    }

    /// The optional positional arguments, in matching order.
    pub fn optional_args(&self) -> (r: &Vec<Arg>)
        ensures
            arg_views(r@) == self@.optional,
    {
        &self.optional_args
    }

    /// The named arguments, in declaration order.
    pub fn named_args(&self) -> (r: &Vec<Arg>)
        ensures
            arg_views(r@) == self@.named,
    {
        &self.named_args
    }

    /// Whether an argument of that name is declared, in any category.
    pub fn declares(&self, name: &str) -> (r: bool)
        ensures
            r == self@.declares(name@),
    {
        let key = name.to_owned();
        holds_name(&self.required_args, &key) || holds_name(&self.optional_args, &key) || holds_name(
            &self.named_args,
            &key,
        )
    }

    /// Adds `arg` to the bucket of its category, behind the arguments that
    /// are already there. A name that is already declared is rejected, and
    /// the schema stays as it was.
    pub fn add_arg(&mut self, arg: Arg) -> (r: Result<(), CmdError>)
        ensures
            old(self)@.declares(arg@.name) ==> r is Err && r->Err_0@ == ErrorView::DuplicateName(arg@.name)
                && final(self)@ == old(self)@,
            !old(self)@.declares(arg@.name) ==> r is Ok && final(self)@ == old(self)@.with_arg(arg@),
            old(self)@.wf(),
            final(self)@.wf(),
    {
        proof {
            use_type_invariant(&*self);
        }
        if holds_name(&self.required_args, &arg.name) || holds_name(&self.optional_args, &arg.name)
            || holds_name(&self.named_args, &arg.name) {
            return Err(CmdError::DuplicateName(arg.name.clone()));
        }
        let ghost before = self@;
        let ghost added = arg@;
        proof {
            lemma_with_arg_keeps_wf(before, added);
        }
        if arg.kwarg {
            let mut bucket: Vec<Arg> = Vec::new();
            std::mem::swap(&mut bucket, &mut self.named_args);
            bucket.push(arg);
            assert(arg_views(bucket@) =~= before.named.push(added));
            self.named_args = bucket;
        } else if arg.default.is_none() {
            let mut bucket: Vec<Arg> = Vec::new();
            std::mem::swap(&mut bucket, &mut self.required_args);
            bucket.push(arg);
            assert(arg_views(bucket@) =~= before.required.push(added));
            self.required_args = bucket;
        } else {
            let mut bucket: Vec<Arg> = Vec::new();
            std::mem::swap(&mut bucket, &mut self.optional_args);
            bucket.push(arg);
            assert(arg_views(bucket@) =~= before.optional.push(added));
            self.optional_args = bucket;
        }
        assert(self@ == before.with_arg(added));
        Ok(())
    }
}

/// Adding an argument under a name that is not yet declared keeps the
/// schema's invariant.
pub proof fn lemma_with_arg_keeps_wf(cmd: CommandView, arg: ArgView)
    requires
        cmd.wf(),
        !cmd.declares(arg.name),
    ensures
        cmd.with_arg(arg).wf(),
{
    let next = cmd.with_arg(arg);
    assert forall|i: int| 0 <= i < cmd.required.len() implies (#[trigger] cmd.required[i]).name != arg.name by {}
    assert forall|i: int| 0 <= i < cmd.optional.len() implies (#[trigger] cmd.optional[i]).name != arg.name by {}
    assert forall|i: int| 0 <= i < cmd.named.len() implies (#[trigger] cmd.named[i]).name != arg.name by {}
}

} // verus!
