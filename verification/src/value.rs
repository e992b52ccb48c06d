//! Decoded values and typed access to them.

use vstd::prelude::*;
use itertools::Itertools;
use crate::error::{CmdError, Requested};

verus! {

/// The primitive type that one token of an argument is decoded as.
#[derive(Clone, Copy, Debug, PartialEq, Eq, Structural)]
pub enum ArgType {
    String,
    UnsignedInteger,
    SignedInteger,
    Float,
}

/// A decoded value. A floating-point number is held as its IEEE 754 binary64 bit pattern.
#[derive(Debug, PartialEq, Eq)]
pub enum Value {
    String(String),
    UnsignedInteger(u64),
    SignedInteger(i64),
    Float(u64),
    Vector(Vec<Value>),
}

/// The mathematical content of a [`Value`].
pub ghost enum ValueView {
    String(Seq<char>),
    UnsignedInteger(u64),
    SignedInteger(i64),
    Float(u64),
    Vector(Seq<ValueView>),
}

impl View for Value {
    type V = ValueView;

    open spec fn view(&self) -> ValueView
        decreases self,
    {
        match self {
            Value::String(s) => ValueView::String(s@),
            Value::UnsignedInteger(n) => ValueView::UnsignedInteger(*n),
            Value::SignedInteger(n) => ValueView::SignedInteger(*n),
            Value::Float(b) => ValueView::Float(*b),
            Value::Vector(items) => ValueView::Vector(views_upto(items@, items@.len())),
        }
    }
}

/// The views of the first `n` of `items`, in order.
pub open spec fn views_upto(items: Seq<Value>, n: nat) -> Seq<ValueView>
    decreases items, n,
{
    if n == 0 || n > items.len() {
        Seq::empty()
    } else {
        views_upto(items, (n - 1) as nat).push(items[n - 1]@)
    }
}

/// The views of a sequence of values, in order.
pub open spec fn value_views(items: Seq<Value>) -> Seq<ValueView> {
    Seq::new(items.len(), |i: int| items[i]@)
}

/// The first `n` views, element by element.
pub proof fn lemma_views_upto(items: Seq<Value>, n: nat)
    requires
        n <= items.len(),
    ensures
        views_upto(items, n) =~= value_views(items).take(n as int),
    decreases n,
{
    if n > 0 {
        lemma_views_upto(items, (n - 1) as nat);
        let front = views_upto(items, (n - 1) as nat);
        assert(views_upto(items, n) == front.push(items[n - 1]@));
        assert(front.len() == n - 1);
        assert(views_upto(items, n).len() == n);
        assert forall|i: int| 0 <= i < n implies views_upto(items, n)[i] == value_views(items).take(n as int)[i] by {
            if i < n - 1 {
                assert(front[i] == value_views(items).take(n - 1)[i]);
            }
        }
    } else {
        assert(views_upto(items, n).len() == 0);
    }
}

/// A vector's view is made of its elements' views.
pub proof fn lemma_vector_view(v: Value)
    requires
        v is Vector,
    ensures
        v@ == ValueView::Vector(value_views(v->Vector_0@)),
{
    let items = v->Vector_0@;
    lemma_views_upto(items, items.len());
    assert(value_views(items).take(items.len() as int) =~= value_views(items));
}

impl Value {
    /// An independent copy with the same content.
    pub fn deep_copy(&self) -> (r: Value)
        ensures
            r@ == self@,
        decreases self,
    {
        match self {
            Value::String(s) => Value::String(s.clone()),
            Value::UnsignedInteger(n) => Value::UnsignedInteger(*n),
            Value::SignedInteger(n) => Value::SignedInteger(*n),
            Value::Float(b) => Value::Float(*b),
            Value::Vector(items) => {
                let mut out: Vec<Value> = Vec::new();
                let mut i: usize = 0;
                while i < items.len()
                    invariant
                        self is Vector,
                        self->Vector_0 == *items,
                        i <= items.len(),
                        out.len() == i,
                        forall|j: int| 0 <= j < i ==> out@[j]@ == items@[j]@,
                    decreases items.len() - i,
                {
                    proof {
                        vstd::std_specs::vec::axiom_vec_index_decreases(*items, i as int);
                    }
                    let c = items[i].deep_copy();
                    out.push(c);
                    i = i + 1;
                }
                let r = Value::Vector(out);
                proof {
                    lemma_vector_view(r);
                    lemma_vector_view(*self);
                    assert(value_views(out@) =~= value_views(items@));
                }
                r
            },
        }
    }

    /// The string that the value holds.
    pub fn as_string(self) -> (r: Result<String, CmdError>)
        ensures
            match self {
                Value::String(s) => r == Ok::<String, CmdError>(s),
                _ => r == Err::<String, CmdError>(CmdError::TypeMismatch(Requested::String)),
            },
    {
        match self {
            Value::String(s) => Ok(s),
            _ => Err(CmdError::TypeMismatch(Requested::String)),
        }
    }

    /// The unsigned integer that the value holds.
    pub fn as_u64(self) -> (r: Result<u64, CmdError>)
        ensures
            match self {
                Value::UnsignedInteger(n) => r == Ok::<u64, CmdError>(n),
                _ => r == Err::<u64, CmdError>(CmdError::TypeMismatch(Requested::UnsignedInteger)),
            },
    {
        match self {
            Value::UnsignedInteger(n) => Ok(n),
            _ => Err(CmdError::TypeMismatch(Requested::UnsignedInteger)),
        }
    }

    /// The signed integer that the value holds.
    pub fn as_i64(self) -> (r: Result<i64, CmdError>)
        ensures
            match self {
                Value::SignedInteger(n) => r == Ok::<i64, CmdError>(n),
                _ => r == Err::<i64, CmdError>(CmdError::TypeMismatch(Requested::SignedInteger)),
            },
    {
        match self {
            Value::SignedInteger(n) => Ok(n),
            _ => Err(CmdError::TypeMismatch(Requested::SignedInteger)),
        }
    }

    /// The bit pattern of the floating-point number that the value holds.
    pub fn as_f64_bits(self) -> (r: Result<u64, CmdError>)
        ensures
            match self {
                Value::Float(b) => r == Ok::<u64, CmdError>(b),
                _ => r == Err::<u64, CmdError>(CmdError::TypeMismatch(Requested::Float)),
            },
    {
        match self {
            Value::Float(b) => Ok(b),
            _ => Err(CmdError::TypeMismatch(Requested::Float)),
        }
    }

    /// The elements of the vector that the value holds.
    pub fn as_vec(self) -> (r: Result<Vec<Value>, CmdError>)
        ensures
            match self {
                Value::Vector(items) => r == Ok::<Vec<Value>, CmdError>(items),
                _ => r == Err::<Vec<Value>, CmdError>(CmdError::TypeMismatch(Requested::Vector)),
            },
    {
        match self {
            Value::Vector(items) => Ok(items),
            _ => Err(CmdError::TypeMismatch(Requested::Vector)),
        }
    }

    /// The elements of the vector that the value holds, each as a string.
    /// All or nothing: one element of another type fails the whole request.
    pub fn as_stringvec(self) -> (r: Result<Vec<String>, CmdError>)
        ensures
            match self {
                Value::Vector(items) => if forall|i: int| 0 <= i < items@.len() ==> items@[i] is String {
                    &&& r is Ok
                    &&& r->Ok_0@ =~= Seq::new(items@.len(), |i: int| items@[i]->String_0)
                } else {
                    r == Err::<Vec<String>, CmdError>(CmdError::TypeMismatch(Requested::String))
                },
                _ => r == Err::<Vec<String>, CmdError>(CmdError::TypeMismatch(Requested::Vector)),
            },
    {
        match self.as_vec() {
            Err(e) => Err(e),
            Ok(items) => {
                let ghost all = items@;
                let mut read: Vec<Result<String, CmdError>> = Vec::new();
                for item in it: items
                    invariant
                        it.seq() == all,
                        read.len() == it.index(),
                        forall|j: int| 0 <= j < it.index() ==> match all[j] {
                            Value::String(x) => (#[trigger] read@[j]) == Ok::<String, CmdError>(x),
                            _ => read@[j] == Err::<String, CmdError>(CmdError::TypeMismatch(Requested::String)),
                        },
                {
                    read.push(item.as_string());
                }
                let r = gather(read);
                proof {
                    if forall|i: int| 0 <= i < all.len() ==> all[i] is String {
                        if r is Err {
                            let j = choose|j: int| 0 <= j < read@.len() && read@[j] == Err::<String, CmdError>(r->Err_0);
                            assert(all[j] is String);
                        }
                    } else {
                        let k = choose|k: int| 0 <= k < all.len() && !(all[k] is String);
                        assert(read@[k] is Err);
                    }
                }
                r
            },
        }
    }

    /// The elements of the vector that the value holds, each as an unsigned integer.
    /// All or nothing: one element of another type fails the whole request.
    pub fn as_u64vec(self) -> (r: Result<Vec<u64>, CmdError>)
        ensures
            match self {
                Value::Vector(items) => if forall|i: int| 0 <= i < items@.len() ==> items@[i] is UnsignedInteger {
                    &&& r is Ok
                    &&& r->Ok_0@ =~= Seq::new(items@.len(), |i: int| items@[i]->UnsignedInteger_0)
                } else {
                    r == Err::<Vec<u64>, CmdError>(CmdError::TypeMismatch(Requested::UnsignedInteger))
                },
                _ => r == Err::<Vec<u64>, CmdError>(CmdError::TypeMismatch(Requested::Vector)),
            },
    {
        match self.as_vec() {
            Err(e) => Err(e),
            Ok(items) => {
                let ghost all = items@;
                let mut read: Vec<Result<u64, CmdError>> = Vec::new();
                for item in it: items
                    invariant
                        it.seq() == all,
                        read.len() == it.index(),
                        forall|j: int| 0 <= j < it.index() ==> match all[j] {
                            Value::UnsignedInteger(x) => (#[trigger] read@[j]) == Ok::<u64, CmdError>(x),
                            _ => read@[j] == Err::<u64, CmdError>(CmdError::TypeMismatch(Requested::UnsignedInteger)),
                        },
                {
                    read.push(item.as_u64());
                }
                let r = gather(read);
                proof {
                    if forall|i: int| 0 <= i < all.len() ==> all[i] is UnsignedInteger {
                        if r is Err {
                            let j = choose|j: int| 0 <= j < read@.len() && read@[j] == Err::<u64, CmdError>(r->Err_0);
                            assert(all[j] is UnsignedInteger);
                        }
                    } else {
                        let k = choose|k: int| 0 <= k < all.len() && !(all[k] is UnsignedInteger);
                        assert(read@[k] is Err);
                    }
                }
                r
            },
        }
    }

    /// The elements of the vector that the value holds, each as a signed integer.
    /// All or nothing: one element of another type fails the whole request.
    pub fn as_i64vec(self) -> (r: Result<Vec<i64>, CmdError>)
        ensures
            match self {
                Value::Vector(items) => if forall|i: int| 0 <= i < items@.len() ==> items@[i] is SignedInteger {
                    &&& r is Ok
                    &&& r->Ok_0@ =~= Seq::new(items@.len(), |i: int| items@[i]->SignedInteger_0)
                } else {
                    r == Err::<Vec<i64>, CmdError>(CmdError::TypeMismatch(Requested::SignedInteger))
                },
                _ => r == Err::<Vec<i64>, CmdError>(CmdError::TypeMismatch(Requested::Vector)),
            },
    {
        match self.as_vec() {
            Err(e) => Err(e),
            Ok(items) => {
                let ghost all = items@;
                let mut read: Vec<Result<i64, CmdError>> = Vec::new();
                for item in it: items
                    invariant
                        it.seq() == all,
                        read.len() == it.index(),
                        forall|j: int| 0 <= j < it.index() ==> match all[j] {
                            Value::SignedInteger(x) => (#[trigger] read@[j]) == Ok::<i64, CmdError>(x),
                            _ => read@[j] == Err::<i64, CmdError>(CmdError::TypeMismatch(Requested::SignedInteger)),
                        },
                {
                    read.push(item.as_i64());
                }
                let r = gather(read);
                proof {
                    if forall|i: int| 0 <= i < all.len() ==> all[i] is SignedInteger {
                        if r is Err {
                            let j = choose|j: int| 0 <= j < read@.len() && read@[j] == Err::<i64, CmdError>(r->Err_0);
                            assert(all[j] is SignedInteger);
                        }
                    } else {
                        let k = choose|k: int| 0 <= k < all.len() && !(all[k] is SignedInteger);
                        assert(read@[k] is Err);
                    }
                }
                r
            },
        }
    }

    /// The elements of the vector that the value holds, each as the bit pattern of a floating-point number.
    /// All or nothing: one element of another type fails the whole request.
    pub fn as_f64vec_bits(self) -> (r: Result<Vec<u64>, CmdError>)
        ensures
            match self {
                Value::Vector(items) => if forall|i: int| 0 <= i < items@.len() ==> items@[i] is Float {
                    &&& r is Ok
                    &&& r->Ok_0@ =~= Seq::new(items@.len(), |i: int| items@[i]->Float_0)
                } else {
                    r == Err::<Vec<u64>, CmdError>(CmdError::TypeMismatch(Requested::Float))
                },
                _ => r == Err::<Vec<u64>, CmdError>(CmdError::TypeMismatch(Requested::Vector)),
            },
    {
        match self.as_vec() {
            Err(e) => Err(e),
            Ok(items) => {
                let ghost all = items@;
                let mut read: Vec<Result<u64, CmdError>> = Vec::new();
                for item in it: items
                    invariant
                        it.seq() == all,
                        read.len() == it.index(),
                        forall|j: int| 0 <= j < it.index() ==> match all[j] {
                            Value::Float(x) => (#[trigger] read@[j]) == Ok::<u64, CmdError>(x),
                            _ => read@[j] == Err::<u64, CmdError>(CmdError::TypeMismatch(Requested::Float)),
                        },
                {
                    read.push(item.as_f64_bits());
                }
                let r = gather(read);
                proof {
                    if forall|i: int| 0 <= i < all.len() ==> all[i] is Float {
                        if r is Err {
                            let j = choose|j: int| 0 <= j < read@.len() && read@[j] == Err::<u64, CmdError>(r->Err_0);
                            assert(all[j] is Float);
                        }
                    } else {
                        let k = choose|k: int| 0 <= k < all.len() && !(all[k] is Float);
                        assert(read@[k] is Err);
                    }
                }
                r
            },
        }
    }
}

/// Whether every element is `Ok`.
pub open spec fn all_ok<T>(items: Seq<Result<T, CmdError>>) -> bool {
    forall|i: int| 0 <= i < items.len() ==> (#[trigger] items[i]) is Ok
}

/// The payloads of a sequence of `Ok` elements, in order.
pub open spec fn payloads<T>(items: Seq<Result<T, CmdError>>) -> Seq<T> {
    Seq::new(items.len(), |i: int| items[i]->Ok_0)
}

/// `acc` with `x` appended: the step by which [`gather`] folds.
pub fn appended<T>(acc: Vec<T>, x: T) -> (r: Vec<T>)
    ensures
        r@ == acc@.push(x),
{
    let mut acc = acc;
    acc.push(x);
    acc
}

/// Calls `Itertools::fold_ok` on the elements in order, starting from an empty
/// vector and folding with [`appended`]. As that method's source shows, the
/// fold stops at the first `Err` and returns it; with no `Err` it returns the
/// vector of all payloads in their order.
#[verifier::external_body]
pub(crate) fn gather<T>(items: Vec<Result<T, CmdError>>) -> (r: Result<Vec<T>, CmdError>)
    ensures
        match r {
            Ok(v) => all_ok(items@) && v@ =~= payloads(items@),
            Err(e) => exists|j: int|
                0 <= j < items@.len() && #[trigger] items@[j] == Err::<T, CmdError>(e) && all_ok(
                    items@.take(j),
                ),
        },
{
    items.into_iter().fold_ok(Vec::new(), appended)
}

} // verus!
