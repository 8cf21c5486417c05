//! The static types that guide conversions between heap objects and owned
//! values, and the table of algebraic data types that they name.
//!
//! A type is a variable, a named constructor, an application of one type to
//! another, a function type, a tuple or a record. An application spine such
//! as `Result e a` is the constructor `Result` applied to `e` and then `a`.

use vstd::prelude::*;

use crate::natives::same_text;
use crate::text::chars_of;
use crate::value::{local_name, local_name_spec};

verus! {

/// A type that a conversion expects.
#[derive(Debug)]
pub enum ConvType {
    Var(u64),
    Con(String),
    App(Box<ConvType>, Box<ConvType>),
    Fun(Box<ConvType>, Box<ConvType>),
    Tuple(Vec<ConvType>),
    Record(Vec<(String, ConvType)>),
}

/// The mathematical form of a type.
pub enum TyV {
    Var(u64),
    Con(Seq<char>),
    App(Box<TyV>, Box<TyV>),
    Fun(Box<TyV>, Box<TyV>),
    Tuple(Seq<TyV>),
    Record(Seq<(Seq<char>, TyV)>),
}

/// The mathematical form of `t`.
pub open spec fn ty_view(t: ConvType) -> TyV
    decreases t,
{
    match t {
        ConvType::Var(v) => TyV::Var(v),
        ConvType::Con(n) => TyV::Con(n@),
        ConvType::App(f, a) => TyV::App(Box::new(ty_view(*f)), Box::new(ty_view(*a))),
        ConvType::Fun(a, b) => TyV::Fun(Box::new(ty_view(*a)), Box::new(ty_view(*b))),
        ConvType::Tuple(v) => TyV::Tuple(tys_view(v@)),
        ConvType::Record(v) => TyV::Record(fields_ty_view(v@)),
    }
}

/// The mathematical forms of the types `s`, in order.
pub open spec fn tys_view(s: Seq<ConvType>) -> Seq<TyV>
    decreases s,
{
    if s.len() == 0 {
        Seq::empty()
    } else {
        seq![ty_view(s[0])] + tys_view(s.drop_first())
    }
}

/// The mathematical forms of the fields `s`, in order.
pub open spec fn fields_ty_view(s: Seq<(String, ConvType)>) -> Seq<(Seq<char>, TyV)>
    decreases s,
{
    if s.len() == 0 {
        Seq::empty()
    } else {
        seq![(s[0].0@, ty_view(s[0].1))] + fields_ty_view(s.drop_first())
    }
}

pub proof fn lemma_tys_view(s: Seq<ConvType>)
    ensures
        tys_view(s).len() == s.len(),
        forall|i: int| 0 <= i < s.len() ==> #[trigger] tys_view(s)[i] == ty_view(s[i]),
    decreases s.len(),
{
    if s.len() > 0 {
        lemma_tys_view(s.drop_first());
        assert forall|i: int| 0 <= i < s.len() implies #[trigger] tys_view(s)[i] == ty_view(s[i]) by {
            if i > 0 {
                assert(tys_view(s)[i] == tys_view(s.drop_first())[i - 1]);
            }
        }
    }
}

pub proof fn lemma_fields_ty_view(s: Seq<(String, ConvType)>)
    ensures
        fields_ty_view(s).len() == s.len(),
        forall|i: int| 0 <= i < s.len() ==> #[trigger] fields_ty_view(s)[i] == (s[i].0@, ty_view(s[i].1)),
    decreases s.len(),
{
    if s.len() > 0 {
        lemma_fields_ty_view(s.drop_first());
        assert forall|i: int| 0 <= i < s.len() implies #[trigger] fields_ty_view(s)[i] == (s[i].0@, ty_view(s[i].1)) by {
            if i > 0 {
                assert(fields_ty_view(s)[i] == fields_ty_view(s.drop_first())[i - 1]);
            }
        }
    }
}

impl ConvType {
    /// A copy of this type.
    pub fn copy(&self) -> (t: ConvType)
        ensures
            ty_view(t) == ty_view(*self),
        decreases *self,
    {
        match self {
            ConvType::Var(v) => ConvType::Var(*v),
            ConvType::Con(n) => ConvType::Con(n.clone()),
            ConvType::App(f, a) => ConvType::App(Box::new((**f).copy()), Box::new((**a).copy())),
            ConvType::Fun(a, b) => ConvType::Fun(Box::new((**a).copy()), Box::new((**b).copy())),
            ConvType::Tuple(v) => {
                proof {
                    assert forall|j: int| 0 <= j < v@.len() implies decreases_to!(*self => #[trigger] v@[j]) by {
                        assert(decreases_to!(*self => *v));
                        assert(decreases_to!(*v => v[j]));
                    }
                }
                let mut out: Vec<ConvType> = Vec::new();
                let mut i: usize = 0;
                while i < v.len()
                    invariant
                        0 <= i <= v@.len(),
                        forall|j: int| 0 <= j < v@.len() ==> decreases_to!(*self => #[trigger] v@[j]),
                        out@.len() == i,
                        forall|j: int| 0 <= j < i ==> ty_view(#[trigger] out@[j]) == ty_view(v@[j]),
                    decreases v@.len() - i,
                {
                    out.push(v[i].copy());
                    i += 1;
                }
                proof {
                    lemma_tys_view(out@);
                    lemma_tys_view(v@);
                    assert(tys_view(out@) =~= tys_view(v@));
                }
                ConvType::Tuple(out)
            },
            ConvType::Record(v) => {
                proof {
                    assert forall|j: int| 0 <= j < v@.len() implies decreases_to!(*self => #[trigger] v@[j].1) by {
                        assert(decreases_to!(*self => *v));
                        assert(decreases_to!(*v => v[j]));
                        assert(decreases_to!(v[j] => v[j].1));
                    }
                }
                let mut out: Vec<(String, ConvType)> = Vec::new();
                let mut i: usize = 0;
                while i < v.len()
                    invariant
                        0 <= i <= v@.len(),
                        forall|j: int| 0 <= j < v@.len() ==> decreases_to!(*self => #[trigger] v@[j].1),
                        out@.len() == i,
                        forall|j: int| 0 <= j < i ==> (#[trigger] out@[j]).0@ == v@[j].0@ && ty_view(out@[j].1) == ty_view(v@[j].1),
                    decreases v@.len() - i,
                {
                    out.push((v[i].0.clone(), v[i].1.copy()));
                    i += 1;
                }
                proof {
                    lemma_fields_ty_view(out@);
                    lemma_fields_ty_view(v@);
                    assert(fields_ty_view(out@) =~= fields_ty_view(v@));
                }
                ConvType::Record(out)
            },
        }
    }
}

/// The head of an application spine and its arguments, in order.
pub open spec fn decompose(t: TyV) -> (TyV, Seq<TyV>)
    decreases t,
{
    match t {
        TyV::App(f, a) => {
            let (h, xs) = decompose(*f);
            (h, xs.push(*a))
        },
        _ => (t, Seq::empty()),
    }
}

/// The head of an application spine and its arguments, in order.
pub fn decompose_type_app(t: &ConvType) -> (r: (ConvType, Vec<ConvType>))
    ensures
        ty_view(r.0) == decompose(ty_view(*t)).0,
        tys_view(r.1@) == decompose(ty_view(*t)).1,
    decreases *t,
{
    match t {
        ConvType::App(f, a) => {
            let (h, mut xs) = decompose_type_app(&**f);
            let ghost before = xs@;
            xs.push((**a).copy());
            proof {
                lemma_tys_view(before);
                lemma_tys_view(xs@);
                assert(tys_view(xs@) =~= tys_view(before).push(ty_view(**a)));
            }
            (h, xs)
        },
        _ => {
            let xs: Vec<ConvType> = Vec::new();
            proof {
                assert(tys_view(xs@) =~= Seq::<TyV>::empty());
            }
            (t.copy(), xs)
        },
    }
}

/// The characters of `u8`.
pub open spec fn u8_name() -> Seq<char> {
    seq!['u', '8']
}

/// Whether `t` is the constructor `u8` itself.
pub fn is_u8_type(t: &ConvType) -> (b: bool)
    ensures
        b == (ty_view(*t) == TyV::Con(u8_name())),
{
    match t {
        ConvType::Con(n) => {
            let r = same_text(n.as_str(), "u8");
            proof {
                reveal_strlit("u8");
                assert("u8"@ =~= u8_name());
            }
            r
        },
        _ => false,
    }
}

/// The argument that the last of `params` equal to `id` stands for.
pub open spec fn bound_arg(params: Seq<u64>, args: Seq<TyV>, id: u64) -> Option<TyV>
    decreases params.len(),
{
    if params.len() == 0 {
        None
    } else if params.last() == id {
        Some(args[params.len() - 1])
    } else {
        bound_arg(params.drop_last(), args, id)
    }
}

/// `t` with each variable that `params` binds replaced by its argument.
pub open spec fn instantiate(t: TyV, params: Seq<u64>, args: Seq<TyV>) -> TyV
    decreases t,
{
    match t {
        TyV::Var(id) => match bound_arg(params, args, id) {
            Some(x) => x,
            None => t,
        },
        TyV::Con(_) => t,
        TyV::App(f, a) => TyV::App(Box::new(instantiate(*f, params, args)), Box::new(instantiate(*a, params, args))),
        TyV::Fun(a, b) => TyV::Fun(Box::new(instantiate(*a, params, args)), Box::new(instantiate(*b, params, args))),
        TyV::Tuple(ts) => TyV::Tuple(instantiate_all(ts, params, args)),
        TyV::Record(fs) => TyV::Record(instantiate_fields(fs, params, args)),
    }
}

/// `instantiate` on each of `ts`.
pub open spec fn instantiate_all(ts: Seq<TyV>, params: Seq<u64>, args: Seq<TyV>) -> Seq<TyV>
    decreases ts,
{
    if ts.len() == 0 {
        Seq::empty()
    } else {
        seq![instantiate(ts[0], params, args)] + instantiate_all(ts.drop_first(), params, args)
    }
}

/// `instantiate` on the type of each of `fs`.
pub open spec fn instantiate_fields(fs: Seq<(Seq<char>, TyV)>, params: Seq<u64>, args: Seq<TyV>) -> Seq<(Seq<char>, TyV)>
    decreases fs,
{
    if fs.len() == 0 {
        Seq::empty()
    } else {
        seq![(fs[0].0, instantiate(fs[0].1, params, args))] + instantiate_fields(fs.drop_first(), params, args)
    }
}


/// Each of `ts` instantiated: lengths and items.
pub proof fn lemma_instantiate_all(ts: Seq<TyV>, params: Seq<u64>, args: Seq<TyV>)
    ensures
        instantiate_all(ts, params, args).len() == ts.len(),
        forall|i: int| 0 <= i < ts.len() ==> #[trigger] instantiate_all(ts, params, args)[i] == instantiate(ts[i], params, args),
    decreases ts.len(),
{
    if ts.len() > 0 {
        lemma_instantiate_all(ts.drop_first(), params, args);
        assert forall|i: int| 0 <= i < ts.len() implies #[trigger] instantiate_all(ts, params, args)[i] == instantiate(ts[i], params, args) by {
            if i > 0 {
                assert(instantiate_all(ts, params, args)[i] == instantiate_all(ts.drop_first(), params, args)[i - 1]);
            }
        }
    }
}

/// Each of `fs` instantiated: lengths, names and types.
pub proof fn lemma_instantiate_fields(fs: Seq<(Seq<char>, TyV)>, params: Seq<u64>, args: Seq<TyV>)
    ensures
        instantiate_fields(fs, params, args).len() == fs.len(),
        forall|i: int| 0 <= i < fs.len() ==> #[trigger] instantiate_fields(fs, params, args)[i] == (fs[i].0, instantiate(fs[i].1, params, args)),
    decreases fs.len(),
{
    if fs.len() > 0 {
        lemma_instantiate_fields(fs.drop_first(), params, args);
        assert forall|i: int| 0 <= i < fs.len() implies #[trigger] instantiate_fields(fs, params, args)[i] == (fs[i].0, instantiate(fs[i].1, params, args)) by {
            if i > 0 {
                assert(instantiate_fields(fs, params, args)[i] == instantiate_fields(fs.drop_first(), params, args)[i - 1]);
            }
        }
    }
}

/// The last index of `params` that holds `id`.
fn bound_index(params: &Vec<u64>, id: u64) -> (r: Option<usize>)
    ensures
        match r {
            Some(j) => j < params@.len() && params@[j as int] == id && forall|k: int| j < k < params@.len() ==> params@[k] != id,
            None => forall|k: int| 0 <= k < params@.len() ==> params@[k] != id,
        },
{
    let mut j: usize = params.len();
    while j > 0
        invariant
            j <= params@.len(),
            forall|k: int| j <= k < params@.len() ==> params@[k] != id,
        decreases j,
    {
        if params[j - 1] == id {
            return Some(j - 1);
        }
        j -= 1;
    }
    None
}

proof fn lemma_bound_arg(params: Seq<u64>, args: Seq<TyV>, id: u64, j: Option<int>)
    requires
        match j {
            Some(j) => 0 <= j < params.len() && params[j] == id && forall|k: int| j < k < params.len() ==> params[k] != id,
            None => forall|k: int| 0 <= k < params.len() ==> params[k] != id,
        },
    ensures
        bound_arg(params, args, id) == match j {
            Some(j) => Some(args[j]),
            None => None::<TyV>,
        },
    decreases params.len(),
{
    if params.len() > 0 {
        match j {
            Some(jj) => {
                if jj != params.len() - 1 {
                    lemma_bound_arg(params.drop_last(), args, id, j);
                }
            },
            None => {
                lemma_bound_arg(params.drop_last(), args, id, j);
            },
        }
    }
}

/// `t` with each variable that `params` binds replaced by its argument in
/// `args`, the last binding of a variable winning.
pub fn instantiate_type(t: &ConvType, params: &Vec<u64>, args: &Vec<ConvType>) -> (r: ConvType)
    requires
        params@.len() == args@.len(),
    ensures
        ty_view(r) == instantiate(ty_view(*t), params@, tys_view(args@)),
    decreases *t,
{
    match t {
        ConvType::Var(id) => {
            let j = bound_index(params, *id);
            proof {
                lemma_tys_view(args@);
                lemma_bound_arg(params@, tys_view(args@), *id, match j { Some(x) => Some(x as int), None => None });
            }
            match j {
                Some(j) => args[j].copy(),
                None => ConvType::Var(*id),
            }
        },
        ConvType::Con(n) => ConvType::Con(n.clone()),
        ConvType::App(f, a) => ConvType::App(Box::new(instantiate_type(&**f, params, args)), Box::new(instantiate_type(&**a, params, args))),
        ConvType::Fun(a, b) => ConvType::Fun(Box::new(instantiate_type(&**a, params, args)), Box::new(instantiate_type(&**b, params, args))),
        ConvType::Tuple(v) => {
            proof {
                assert forall|j: int| 0 <= j < v@.len() implies decreases_to!(*t => #[trigger] v@[j]) by {
                    assert(decreases_to!(*t => *v));
                    assert(decreases_to!(*v => v[j]));
                }
            }
            let ghost want = instantiate_all(tys_view(v@), params@, tys_view(args@));
            let mut out: Vec<ConvType> = Vec::new();
            let mut i: usize = 0;
            while i < v.len()
                invariant
                    0 <= i <= v@.len(),
                    params@.len() == args@.len(),
                    forall|j: int| 0 <= j < v@.len() ==> decreases_to!(*t => #[trigger] v@[j]),
                    out@.len() == i,
                    forall|j: int| 0 <= j < i ==> ty_view(#[trigger] out@[j]) == instantiate(ty_view(v@[j]), params@, tys_view(args@)),
                decreases v@.len() - i,
            {
                out.push(instantiate_type(&v[i], params, args));
                i += 1;
            }
            proof {
                lemma_tys_view(out@);
                lemma_tys_view(v@);
                lemma_instantiate_all(tys_view(v@), params@, tys_view(args@));
                assert(tys_view(out@) =~= want);
            }
            ConvType::Tuple(out)
        },
        ConvType::Record(v) => {
            proof {
                assert forall|j: int| 0 <= j < v@.len() implies decreases_to!(*t => #[trigger] v@[j].1) by {
                    assert(decreases_to!(*t => *v));
                    assert(decreases_to!(*v => v[j]));
                    assert(decreases_to!(v[j] => v[j].1));
                }
            }
            let ghost want = instantiate_fields(fields_ty_view(v@), params@, tys_view(args@));
            let mut out: Vec<(String, ConvType)> = Vec::new();
            let mut i: usize = 0;
            while i < v.len()
                invariant
                    0 <= i <= v@.len(),
                    params@.len() == args@.len(),
                    forall|j: int| 0 <= j < v@.len() ==> decreases_to!(*t => #[trigger] v@[j].1),
                    out@.len() == i,
                    forall|j: int| 0 <= j < i ==> (#[trigger] out@[j]).0@ == v@[j].0@
                        && ty_view(out@[j].1) == instantiate(ty_view(v@[j].1), params@, tys_view(args@)),
                decreases v@.len() - i,
            {
                out.push((v[i].0.clone(), instantiate_type(&v[i].1, params, args)));
                i += 1;
            }
            proof {
                lemma_fields_ty_view(out@);
                lemma_fields_ty_view(v@);
                lemma_instantiate_fields(fields_ty_view(v@), params@, tys_view(args@));
                assert(fields_ty_view(out@) =~= want);
            }
            ConvType::Record(out)
        },
    }
}

/// The decimal digits.
pub open spec fn decimal_alphabet() -> Seq<char> {
    seq!['0', '1', '2', '3', '4', '5', '6', '7', '8', '9']
}

/// `n` in decimal, without leading zeros.
pub open spec fn digits(n: nat) -> Seq<char>
    decreases n,
{
    if n < 10 {
        seq![decimal_alphabet()[n as int]]
    } else {
        digits(n / 10).push(decimal_alphabet()[(n % 10) as int])
    }
}

/// Appends `n` in decimal.
pub fn push_decimal(out: &mut Vec<char>, n: u64)
    ensures
        final(out)@ == old(out)@ + digits(n as nat),
    decreases n,
{
    let alphabet: [char; 10] = ['0', '1', '2', '3', '4', '5', '6', '7', '8', '9'];
    proof {
        assert(alphabet@ =~= decimal_alphabet());
    }
    if n >= 10 {
        push_decimal(out, n / 10);
    }
    out.push(alphabet[(n % 10) as usize]);
    proof {
        if n < 10 {
            assert(n % 10 == n);
        }
        assert(out@ =~= old(out)@ + digits(n as nat));
    }
}


/// A type as text: a variable as `t` and its number, a constructor by its
/// name, an application as the function and its argument (in parentheses
/// where the argument is itself an application or a function type), a
/// function type with `->`, a tuple in parentheses and a record in braces.
pub open spec fn type_text(t: TyV) -> Seq<char>
    decreases t,
{
    match t {
        TyV::Var(id) => seq!['t'] + digits(id as nat),
        TyV::Con(n) => n,
        TyV::App(f, a) => type_text(*f) + seq![' '] + (match *a {
            TyV::App(_, _) => seq!['('] + type_text(*a) + seq![')'],
            TyV::Fun(_, _) => seq!['('] + type_text(*a) + seq![')'],
            _ => type_text(*a),
        }),
        TyV::Fun(a, b) => (match *a {
            TyV::Fun(_, _) => seq!['('] + type_text(*a) + seq![')'],
            _ => type_text(*a),
        }) + seq![' ', '-', '>', ' '] + type_text(*b),
        TyV::Tuple(ts) => seq!['('] + join_types(ts) + seq![')'],
        TyV::Record(fs) => seq!['{'] + join_fields(fs) + seq!['}'],
    }
}

/// The texts of `ts`, separated by `, `.
pub open spec fn join_types(ts: Seq<TyV>) -> Seq<char>
    decreases ts,
{
    if ts.len() == 0 {
        Seq::empty()
    } else if ts.len() == 1 {
        type_text(ts[0])
    } else {
        join_types(ts.drop_last()) + seq![',', ' '] + type_text(ts[ts.len() - 1])
    }
}

/// The fields of `fs` as `name: type`, separated by `, `.
pub open spec fn join_fields(fs: Seq<(Seq<char>, TyV)>) -> Seq<char>
    decreases fs,
{
    if fs.len() == 0 {
        Seq::empty()
    } else if fs.len() == 1 {
        fs[0].0 + seq![':', ' '] + type_text(fs[0].1)
    } else {
        join_fields(fs.drop_last()) + seq![',', ' '] + fs[fs.len() - 1].0 + seq![':', ' '] + type_text(fs[fs.len() - 1].1)
    }
}

/// Appends the text of `t`.
fn push_type_text(out: &mut Vec<char>, t: &ConvType)
    ensures
        final(out)@ == old(out)@ + type_text(ty_view(*t)),
    decreases *t,
{
    let ghost start = out@;
    match t {
        ConvType::Var(id) => {
            out.push('t');
            push_decimal(out, *id);
            proof {
                assert(out@ =~= start + type_text(ty_view(*t)));
            }
        },
        ConvType::Con(n) => {
            let mut cs = chars_of(n.as_str());
            out.append(&mut cs);
        },
        ConvType::App(f, a) => {
            push_type_text(out, &**f);
            out.push(' ');
            let wrap = match &**a {
                ConvType::App(_, _) => true,
                ConvType::Fun(_, _) => true,
                _ => false,
            };
            if wrap {
                out.push('(');
            }
            push_type_text(out, &**a);
            if wrap {
                out.push(')');
            }
            proof {
                assert(out@ =~= start + type_text(ty_view(*t)));
            }
        },
        ConvType::Fun(a, b) => {
            let wrap = match &**a {
                ConvType::Fun(_, _) => true,
                _ => false,
            };
            if wrap {
                out.push('(');
            }
            push_type_text(out, &**a);
            if wrap {
                out.push(')');
            }
            out.push(' ');
            out.push('-');
            out.push('>');
            out.push(' ');
            push_type_text(out, &**b);
            proof {
                assert(out@ =~= start + type_text(ty_view(*t)));
            }
        },
        ConvType::Tuple(v) => {
            proof {
                assert forall|j: int| 0 <= j < v@.len() implies decreases_to!(*t => #[trigger] v@[j]) by {
                    assert(decreases_to!(*t => *v));
                    assert(decreases_to!(*v => v[j]));
                }
                lemma_tys_view(v@);
            }
            let ghost tv = tys_view(v@);
            out.push('(');
            let mut i: usize = 0;
            while i < v.len()
                invariant
                    0 <= i <= v@.len(),
                    tv == tys_view(v@),
                    tv.len() == v@.len(),
                    forall|j: int| 0 <= j < v@.len() ==> #[trigger] tv[j] == ty_view(v@[j]),
                    forall|j: int| 0 <= j < v@.len() ==> decreases_to!(*t => #[trigger] v@[j]),
                    out@ == start + seq!['('] + join_types(tv.take(i as int)),
                decreases v@.len() - i,
            {
                if i > 0 {
                    out.push(',');
                    out.push(' ');
                }
                push_type_text(out, &v[i]);
                proof {
                    let taken = tv.take(i + 1);
                    assert(taken.drop_last() =~= tv.take(i as int));
                    assert(taken[taken.len() - 1] == tv[i as int]);
                    if i == 0 {
                        assert(join_types(tv.take(0)) =~= Seq::<char>::empty());
                    }
                    assert(out@ =~= start + seq!['('] + join_types(taken));
                }
                i += 1;
            }
            out.push(')');
            proof {
                assert(tv.take(v@.len() as int) =~= tv);
                assert(out@ =~= start + type_text(ty_view(*t)));
            }
        },
        ConvType::Record(v) => {
            proof {
                assert forall|j: int| 0 <= j < v@.len() implies decreases_to!(*t => #[trigger] v@[j].1) by {
                    assert(decreases_to!(*t => *v));
                    assert(decreases_to!(*v => v[j]));
                    assert(decreases_to!(v[j] => v[j].1));
                }
                lemma_fields_ty_view(v@);
            }
            let ghost fv = fields_ty_view(v@);
            out.push('{');
            let mut i: usize = 0;
            while i < v.len()
                invariant
                    0 <= i <= v@.len(),
                    fv == fields_ty_view(v@),
                    fv.len() == v@.len(),
                    forall|j: int| 0 <= j < v@.len() ==> #[trigger] fv[j] == (v@[j].0@, ty_view(v@[j].1)),
                    forall|j: int| 0 <= j < v@.len() ==> decreases_to!(*t => #[trigger] v@[j].1),
                    out@ == start + seq!['{'] + join_fields(fv.take(i as int)),
                decreases v@.len() - i,
            {
                let ghost before = out@;
                if i > 0 {
                    out.push(',');
                    out.push(' ');
                }
                let mut name = chars_of(v[i].0.as_str());
                out.append(&mut name);
                out.push(':');
                out.push(' ');
                push_type_text(out, &v[i].1);
                proof {
                    let taken = fv.take(i + 1);
                    assert(taken.drop_last() =~= fv.take(i as int));
                    assert(taken[taken.len() - 1] == fv[i as int]);
                    if i == 0 {
                        assert(join_fields(fv.take(0)) =~= Seq::<char>::empty());
                    }
                    assert(out@ =~= start + seq!['{'] + join_fields(taken));
                }
                i += 1;
            }
            out.push('}');
            proof {
                assert(fv.take(v@.len() as int) =~= fv);
                assert(out@ =~= start + type_text(ty_view(*t)));
            }
        },
    }
}

/// The text of a type.
pub fn type_chars(t: &ConvType) -> (r: Vec<char>)
    ensures
        r@ == type_text(ty_view(*t)),
{
    let mut out: Vec<char> = Vec::new();
    push_type_text(&mut out, t);
    proof {
        assert(out@ =~= type_text(ty_view(*t)));
    }
    out
}


/// A constructor of an algebraic data type, with the types of its fields.
#[derive(Debug)]
pub struct AdtVariant {
    pub name: String,
    pub fields: Vec<ConvType>,
}

/// An algebraic data type: its name, its type parameters and its
/// constructors.
#[derive(Debug)]
pub struct AdtDecl {
    pub name: String,
    pub params: Vec<u64>,
    pub variants: Vec<AdtVariant>,
}

/// The algebraic data types that conversions can meet.
#[derive(Debug)]
pub struct TypeTable {
    pub adts: Vec<AdtDecl>,
}

/// The mathematical form of a data type: name, parameters, and each
/// constructor's name and field types.
pub struct AdtV {
    pub name: Seq<char>,
    pub params: Seq<u64>,
    pub variants: Seq<(Seq<char>, Seq<TyV>)>,
}

pub open spec fn variant_view(v: AdtVariant) -> (Seq<char>, Seq<TyV>) {
    (v.name@, tys_view(v.fields@))
}

pub open spec fn adt_view(d: AdtDecl) -> AdtV {
    AdtV { name: d.name@, params: d.params@, variants: d.variants@.map_values(|v: AdtVariant| variant_view(v)) }
}

pub open spec fn table_view(t: TypeTable) -> Seq<AdtV> {
    t.adts@.map_values(|d: AdtDecl| adt_view(d))
}

/// The index of the first data type named `name`.
pub open spec fn find_adt(tab: Seq<AdtV>, name: Seq<char>) -> Option<int>
    decreases tab.len(),
{
    if tab.len() == 0 {
        None
    } else {
        match find_adt(tab.drop_last(), name) {
            Some(i) => Some(i),
            None => if tab.last().name == name {
                Some(tab.len() - 1)
            } else {
                None
            },
        }
    }
}

/// Whether the constructor named `vname` is the one a value tagged `tag`
/// names: the same name, or, for a tag without a `.`, the same local name.
pub open spec fn variant_matches(vname: Seq<char>, tag: Seq<char>) -> bool {
    vname == tag || (!tag.contains('.') && local_name_spec(vname) == tag)
}

/// The index of the first constructor that `tag` names.
pub open spec fn find_variant(vs: Seq<(Seq<char>, Seq<TyV>)>, tag: Seq<char>) -> Option<int>
    decreases vs.len(),
{
    if vs.len() == 0 {
        None
    } else {
        match find_variant(vs.drop_last(), tag) {
            Some(i) => Some(i),
            None => if variant_matches(vs.last().0, tag) {
                Some(vs.len() - 1)
            } else {
                None
            },
        }
    }
}

/// Names separated by `, `.
pub open spec fn join_names(ns: Seq<Seq<char>>) -> Seq<char>
    decreases ns.len(),
{
    if ns.len() == 0 {
        Seq::empty()
    } else if ns.len() == 1 {
        ns[0]
    } else {
        join_names(ns.drop_last()) + seq![',', ' '] + ns.last()
    }
}

/// The constructor of the data type `name`, applied to `args`, that `tag`
/// names, with its field types instantiated; or why there is none.
pub open spec fn resolve(tab: Seq<AdtV>, name: Seq<char>, args: Seq<TyV>, tag: Seq<char>) -> Result<(Seq<char>, Seq<TyV>), Seq<char>> {
    match find_adt(tab, name) {
        None => Err("unknown ADT `"@ + name + "`"@),
        Some(i) => {
            let a = tab[i];
            if a.params.len() != args.len() {
                Err(digits(args.len()) + " type arguments"@)
            } else {
                match find_variant(a.variants, tag) {
                    None => Err("constructor `"@ + tag + "` from another ADT (expected one of: "@
                        + join_names(a.variants.map_values(|v: (Seq<char>, Seq<TyV>)| v.0)) + ")"@),
                    Some(j) => Ok((a.variants[j].0, instantiate_all(a.variants[j].1, a.params, args))),
                }
            }
        },
    }
}

fn has_dot(s: &str) -> (b: bool)
    ensures
        b == s@.contains('.'),
{
    let cs = chars_of(s);
    let mut i: usize = 0;
    while i < cs.len()
        invariant
            0 <= i <= cs@.len(),
            cs@ == s@,
            forall|j: int| 0 <= j < i ==> cs@[j] != '.',
        decreases cs@.len() - i,
    {
        if cs[i] == '.' {
            return true;
        }
        i += 1;
    }
    false
}

/// Finds the constructor of the data type `name`, applied to `args`, that a
/// value tagged `tag` has, and instantiates its field types.
pub fn resolve_adt_variant(table: &TypeTable, name: &str, args: &Vec<ConvType>, tag: &str) -> (r: Result<(String, Vec<ConvType>), String>)
    ensures
        match resolve(table_view(*table), name@, tys_view(args@), tag@) {
            Ok(x) => r matches Ok(y) && y.0@ == x.0 && tys_view(y.1@) == x.1,
            Err(g) => r matches Err(y) && y@ == g,
        },
{
    let ghost tab = table_view(*table);
    let mut found: Option<usize> = None;
    let mut i: usize = 0;
    while i < table.adts.len()
        invariant
            0 <= i <= table.adts@.len(),
            tab == table_view(*table),
            tab.len() == table.adts@.len(),
            found == match find_adt(tab.take(i as int), name@) { Some(k) => Some(k as usize), None => None::<usize> },
            match find_adt(tab.take(i as int), name@) { Some(k) => 0 <= k < i, None => true },
        decreases table.adts@.len() - i,
    {
        proof {
            assert(tab.take(i + 1).drop_last() =~= tab.take(i as int));
            assert(tab[i as int] == adt_view(table.adts@[i as int]));
        }
        if found.is_none() && same_text(table.adts[i].name.as_str(), name) {
            found = Some(i);
        }
        i += 1;
    }
    proof {
        assert(tab.take(table.adts@.len() as int) =~= tab);
    }
    let k = match found {
        Some(k) => k,
        None => {
            let mut out = chars_of("unknown ADT `");
            let mut n = chars_of(name);
            out.append(&mut n);
            let mut close = chars_of("`");
            out.append(&mut close);
            return Err(crate::text::string_from_chars(&out));
        },
    };
    let adt = &table.adts[k];
    proof {
        assert(tab[k as int] == adt_view(*adt));
        lemma_tys_view(args@);
    }
    if adt.params.len() != args.len() {
        let mut out: Vec<char> = Vec::new();
        push_decimal(&mut out, args.len() as u64);
        let mut rest = chars_of(" type arguments");
        out.append(&mut rest);
        return Err(crate::text::string_from_chars(&out));
    }
    let ghost vs = adt_view(*adt).variants;
    let dotted = has_dot(tag);
    let mut vfound: Option<usize> = None;
    let mut j: usize = 0;
    while j < adt.variants.len()
        invariant
            0 <= j <= adt.variants@.len(),
            vs == adt_view(*adt).variants,
            vs.len() == adt.variants@.len(),
            dotted == tag@.contains('.'),
            vfound == match find_variant(vs.take(j as int), tag@) { Some(x) => Some(x as usize), None => None::<usize> },
            match find_variant(vs.take(j as int), tag@) { Some(x) => 0 <= x < j, None => true },
        decreases adt.variants@.len() - j,
    {
        proof {
            assert(vs.take(j + 1).drop_last() =~= vs.take(j as int));
            assert(vs[j as int] == variant_view(adt.variants@[j as int]));
        }
        if vfound.is_none() {
            let vname = adt.variants[j].name.as_str();
            let hit = same_text(vname, tag) || (!dotted && same_text(local_name(vname).as_str(), tag));
            if hit {
                vfound = Some(j);
            }
        }
        j += 1;
    }
    proof {
        assert(vs.take(adt.variants@.len() as int) =~= vs);
    }
    match vfound {
        Some(x) => {
            let variant = &adt.variants[x];
            proof {
                assert(vs[x as int] == variant_view(*variant));
                lemma_tys_view(variant.fields@);
                lemma_instantiate_all(tys_view(variant.fields@), adt.params@, tys_view(args@));
            }
            let mut fields: Vec<ConvType> = Vec::new();
            let mut m: usize = 0;
            while m < variant.fields.len()
                invariant
                    0 <= m <= variant.fields@.len(),
                    adt.params@.len() == args@.len(),
                    fields@.len() == m,
                    forall|q: int| 0 <= q < m ==> ty_view(#[trigger] fields@[q]) == instantiate(ty_view(variant.fields@[q]), adt.params@, tys_view(args@)),
                decreases variant.fields@.len() - m,
            {
                fields.push(instantiate_type(&variant.fields[m], &adt.params, args));
                m += 1;
            }
            proof {
                lemma_tys_view(fields@);
                assert(tys_view(fields@) =~= instantiate_all(tys_view(variant.fields@), adt.params@, tys_view(args@)));
            }
            Ok((variant.name.clone(), fields))
        },
        None => {
            let ghost names = vs.map_values(|v: (Seq<char>, Seq<TyV>)| v.0);
            let mut out = chars_of("constructor `");
            let mut t = chars_of(tag);
            out.append(&mut t);
            let mut mid = chars_of("` from another ADT (expected one of: ");
            out.append(&mut mid);
            let ghost start = out@;
            let mut q: usize = 0;
            while q < adt.variants.len()
                invariant
                    0 <= q <= adt.variants@.len(),
                    vs == adt_view(*adt).variants,
                    vs.len() == adt.variants@.len(),
                    names == vs.map_values(|v: (Seq<char>, Seq<TyV>)| v.0),
                    out@ == start + join_names(names.take(q as int)),
                decreases adt.variants@.len() - q,
            {
                if q > 0 {
                    out.push(',');
                    out.push(' ');
                }
                let mut nm = chars_of(adt.variants[q].name.as_str());
                out.append(&mut nm);
                proof {
                    let taken = names.take(q + 1);
                    assert(taken.drop_last() =~= names.take(q as int));
                    assert(vs[q as int] == variant_view(adt.variants@[q as int]));
                    assert(taken.last() == adt.variants@[q as int].name@);
                    if q == 0 {
                        assert(join_names(names.take(0)) =~= Seq::<char>::empty());
                    }
                    assert(out@ =~= start + join_names(taken));
                }
                q += 1;
            }
            let mut close = chars_of(")");
            out.append(&mut close);
            proof {
                assert(names.take(adt.variants@.len() as int) =~= names);
            }
            Err(crate::text::string_from_chars(&out))
        },
    }
}

} // verus!
