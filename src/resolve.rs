//! Argument resolution: maps every reference of every placeholder to an
//! argument slot, capturing identifiers that no argument names.

use vstd::prelude::*;
use vstd::string::*;

use crate::field::{ArgKind, ArgRef};
use crate::template::{parse_format_string, pieces_view, template_spec, Piece, PieceRef, Spec, SpecRef};
use crate::text::{decimal, push_decimal, push_str};

verus! {

/// `proc_macro2::Group`: the expression of an argument, which the library
/// carries and never reads.
#[verifier::external_type_specification]
#[verifier::external_body]
pub struct ExGroup(proc_macro2::Group);

/// An argument given with the format string.
#[derive(Debug)]
pub struct Argument {
    /// Optional identifier name
    pub ident: Option<String>,
    /// Expression
    pub expr: proc_macro2::Group,
}

/// Where each reference of the format string points, and the identifiers
/// that become new arguments.
#[derive(Debug)]
pub struct ProcessedPieces<'a> {
    /// Argument indices associated to the format string pieces, with custom format specifiers if applicable
    pub arg_indices: Vec<(usize, Option<Spec<'a>>)>,
    /// List of new arguments to be added from captured identifiers in the format string
    pub new_args: Vec<&'a str>,
}

/// One reference of a placeholder, with its custom specifier if any.
pub type RefModel = (ArgRef, Option<SpecRef>);

/// A resolved slot, with its custom specifier if any.
pub type SlotModel = (nat, Option<SpecRef>);

pub open spec fn name_of(a: Argument) -> Option<Seq<char>> {
    match a.ident {
        Some(s) => Some(s@),
        None => None,
    }
}

pub open spec fn names_of(args: Seq<Argument>) -> Seq<Option<Seq<char>>> {
    args.map_values(|a: Argument| name_of(a))
}

pub open spec fn opt_spec_view(s: Option<Spec>) -> Option<SpecRef> {
    match s {
        Some(x) => Some(x@),
        None => None,
    }
}

pub open spec fn slots_view(v: Seq<(usize, Option<Spec>)>) -> Seq<SlotModel> {
    v.map_values(|e: (usize, Option<Spec>)| (e.0 as nat, opt_spec_view(e.1)))
}

pub open spec fn strs_view(v: Seq<&str>) -> Seq<Seq<char>> {
    v.map_values(|s: &str| s@)
}

/// The references of a placeholder, in order: position, width, precision.
pub open spec fn piece_refs(p: PieceRef) -> Seq<RefModel> {
    match p {
        PieceRef::StdFmt { position, width, precision } => {
            let w = match width {
                Some(x) => seq![(x, None::<SpecRef>)],
                None => Seq::<RefModel>::empty(),
            };
            let pr = match precision {
                Some(x) => seq![(x, None::<SpecRef>)],
                None => Seq::<RefModel>::empty(),
            };
            seq![(position, None::<SpecRef>)] + w + pr
        },
        PieceRef::CustomFmt { arg, spec } => seq![(arg, Some(spec))],
    }
}

/// The references of all placeholders, in order.
pub open spec fn all_refs(ps: Seq<PieceRef>) -> Seq<RefModel>
    decreases ps.len(),
{
    if ps.len() == 0 {
        Seq::empty()
    } else {
        all_refs(ps.drop_last()) + piece_refs(ps.last())
    }
}

/// First index, from `k` on, at which `s` holds `x`.
pub open spec fn first_index<T>(s: Seq<T>, x: T, k: nat) -> Option<nat>
    decreases s.len() - k,
{
    if k >= s.len() {
        None
    } else if s[k as int] == x {
        Some(k)
    } else {
        first_index(s, x, k + 1)
    }
}

/// Whether an unnamed argument follows a named one.
pub open spec fn positional_after_named(names: Seq<Option<Seq<char>>>) -> bool {
    exists|i: int, j: int| 0 <= i < j < names.len() && names[i] is Some && names[j] is None
}

/// Whether the name of argument `j` was given to an earlier argument.
pub open spec fn repeats_name(names: Seq<Option<Seq<char>>>, j: int) -> bool {
    names[j] is Some && exists|i: int| 0 <= i < j && names[i] == names[j]
}

/// First argument, from `j` on, whose name an earlier argument has.
pub open spec fn first_duplicate(names: Seq<Option<Seq<char>>>, j: nat) -> Option<nat>
    decreases names.len() - j,
{
    if j >= names.len() {
        None
    } else if repeats_name(names, j as int) {
        Some(j)
    } else {
        first_duplicate(names, j + 1)
    }
}

/// Resolves one reference, given the slots and captured names so far.
pub open spec fn resolve_step(
    st: (Seq<SlotModel>, Seq<Seq<char>>),
    names: Seq<Option<Seq<char>>>,
    r: RefModel,
) -> Result<(Seq<SlotModel>, Seq<Seq<char>>), Seq<char>> {
    let (slots, captured) = st;
    match r.0 {
        ArgRef::Positional(i) => if i < names.len() {
            Ok((slots.push((i, r.1)), captured))
        } else {
            Err("invalid positional argument index: "@ + decimal(i))
        },
        ArgRef::Named(x) => match first_index(names, Some(x), 0) {
            Some(i) => Ok((slots.push((i, r.1)), captured)),
            None => match first_index(captured, x, 0) {
                Some(j) => Ok((slots.push((names.len() + j, r.1)), captured)),
                None => Ok((slots.push((names.len() + captured.len(), r.1)), captured.push(x))),
            },
        },
    }
}

/// Resolves all references in order, stopping at the first error.
pub open spec fn resolve_refs(refs: Seq<RefModel>, names: Seq<Option<Seq<char>>>) -> Result<
    (Seq<SlotModel>, Seq<Seq<char>>),
    Seq<char>,
>
    decreases refs.len(),
{
    if refs.len() == 0 {
        Ok((Seq::empty(), Seq::empty()))
    } else {
        match resolve_refs(refs.drop_last(), names) {
            Err(e) => Err(e),
            Ok(st) => resolve_step(st, names, refs.last()),
        }
    }
}

/// Whether some slot is `i`.
pub open spec fn is_used(slots: Seq<SlotModel>, i: nat) -> bool {
    exists|k: int| 0 <= k < slots.len() && slots[k].0 == i
}

/// First argument, from `i` on, that no slot uses.
pub open spec fn first_unused(slots: Seq<SlotModel>, n: nat, i: nat) -> Option<nat>
    decreases n - i,
{
    if i >= n {
        None
    } else if !is_used(slots, i) {
        Some(i)
    } else {
        first_unused(slots, n, i + 1)
    }
}

pub open spec fn unused_message(names: Seq<Option<Seq<char>>>, i: nat) -> Seq<char> {
    match names[i as int] {
        Some(x) => "named argument `"@ + x + "` not used"@,
        None => "positional argument "@ + decimal(i) + " not used"@,
    }
}

/// Result of resolving the placeholders `pieces` against arguments named
/// `names`: the slot of every reference and the captured identifiers.
pub open spec fn process_spec(pieces: Seq<PieceRef>, names: Seq<Option<Seq<char>>>) -> Result<
    (Seq<SlotModel>, Seq<Seq<char>>),
    Seq<char>,
> {
    if positional_after_named(names) {
        Err("positional arguments cannot follow named arguments"@)
    } else if first_duplicate(names, 0) is Some {
        Err("duplicate argument named `"@ + names[first_duplicate(names, 0)->0 as int]->0 + "`"@)
    } else {
        match resolve_refs(all_refs(pieces), names) {
            Err(e) => Err(e),
            Ok((slots, captured)) => match first_unused(slots, names.len(), 0) {
                Some(i) => Err(unused_message(names, i)),
                None => Ok((slots, captured)),
            },
        }
    }
}

proof fn lemma_first_duplicate(names: Seq<Option<Seq<char>>>, k: nat)
    requires
        first_duplicate(names, k) is Some,
    ensures
        repeats_name(names, first_duplicate(names, k)->0 as int),
        first_duplicate(names, k)->0 < names.len(),
    decreases names.len() - k,
{
    if k < names.len() && !repeats_name(names, k as int) {
        lemma_first_duplicate(names, k + 1);
    }
}

proof fn lemma_resolve_push(a: Seq<RefModel>, r: RefModel, names: Seq<Option<Seq<char>>>)
    ensures
        resolve_refs(a.push(r), names) == match resolve_refs(a, names) {
            Err(e) => Err(e),
            Ok(st) => resolve_step(st, names, r),
        },
{
    assert(a.push(r).drop_last() =~= a);
}

proof fn lemma_resolve_err(a: Seq<RefModel>, b: Seq<RefModel>, names: Seq<Option<Seq<char>>>)
    requires
        resolve_refs(a, names) is Err,
    ensures
        resolve_refs(a + b, names) == resolve_refs(a, names),
    decreases b.len(),
{
    if b.len() == 0 {
        assert(a + b =~= a);
    } else {
        lemma_resolve_err(a, b.drop_last(), names);
        assert((a + b).drop_last() =~= a + b.drop_last());
    }
}

proof fn lemma_all_refs_push(ps: Seq<PieceRef>, p: PieceRef)
    ensures
        all_refs(ps.push(p)) == all_refs(ps) + piece_refs(p),
{
    assert(ps.push(p).drop_last() =~= ps);
}

/// Tests whether two optional names are equal.
fn same_name(a: &Option<String>, b: &Option<String>) -> (r: bool)
    ensures
        r == (match a {
            Some(x) => Some(x@),
            None => None::<Seq<char>>,
        } == match b {
            Some(x) => Some(x@),
            None => None::<Seq<char>>,
        }),
{
    match (a, b) {
        (Some(x), Some(y)) => x.eq(y),
        (None, None) => true,
        _ => false,
    }
}

/// Tests whether an unnamed argument follows a named one.
fn check_positional_after_named(arguments: &[Argument]) -> (r: bool)
    ensures
        r == positional_after_named(names_of(arguments@)),
{
    let ghost names = names_of(arguments@);
    let mut seen_named = false;
    let mut j: usize = 0;
    while j < arguments.len()
        invariant
            names == names_of(arguments@),
            j <= arguments@.len(),
            seen_named == exists|i: int| 0 <= i < j && names[i] is Some,
            !exists|i: int, k: int| 0 <= i < k < j && names[i] is Some && names[k] is None,
        decreases arguments@.len() - j,
    {
        assert(names[j as int] == name_of(arguments@[j as int]));
        if arguments[j].ident.is_some() {
            seen_named = true;
        } else if seen_named {
            return true;
        }
        j = j + 1;
    }
    false
}

/// Finds the first argument whose name an earlier argument has.
fn find_duplicate(arguments: &[Argument]) -> (r: Option<usize>)
    ensures
        r matches Some(j) ==> first_duplicate(names_of(arguments@), 0) == Some(j as nat) && j
            < arguments@.len(),
        r is None ==> first_duplicate(names_of(arguments@), 0) is None,
{
    let ghost names = names_of(arguments@);
    let mut j: usize = 0;
    while j < arguments.len()
        invariant
            names == names_of(arguments@),
            j <= arguments@.len(),
            first_duplicate(names, 0) == first_duplicate(names, j as nat),
        decreases arguments@.len() - j,
    {
        if arguments[j].ident.is_some() {
            let mut i: usize = 0;
            while i < j
                invariant
                    names == names_of(arguments@),
                    i <= j < arguments@.len(),
                    first_duplicate(names, 0) == first_duplicate(names, j as nat),
                    names[j as int] is Some,
                    forall|k: int| 0 <= k < i ==> names[k] != names[j as int],
                decreases j - i,
            {
                assert(names[i as int] == name_of(arguments@[i as int]));
                assert(names[j as int] == name_of(arguments@[j as int]));
                if same_name(&arguments[i].ident, &arguments[j].ident) {
                    assert(repeats_name(names, j as int));
                    return Some(j);
                }
                i = i + 1;
            }
        }
        assert(!repeats_name(names, j as int));
        j = j + 1;
    }
    None
}

/// Finds the argument named `x`.
fn find_argument(arguments: &[Argument], x: &str) -> (r: Option<usize>)
    ensures
        r matches Some(i) ==> first_index(names_of(arguments@), Some(x@), 0) == Some(i as nat),
        r is None ==> first_index(names_of(arguments@), Some(x@), 0) is None,
{
    let ghost names = names_of(arguments@);
    let owned = Some(String::from_str(x));
    let mut i: usize = 0;
    while i < arguments.len()
        invariant
            names == names_of(arguments@),
            i <= arguments@.len(),
            owned matches Some(o) && o@ == x@,
            first_index(names, Some(x@), 0) == first_index(names, Some(x@), i as nat),
        decreases arguments@.len() - i,
    {
        assert(names[i as int] == name_of(arguments@[i as int]));
        if same_name(&arguments[i].ident, &owned) {
            return Some(i);
        }
        i = i + 1;
    }
    None
}

/// Finds the captured identifier `x`.
fn find_captured(new_args: &Vec<&str>, x: &str) -> (r: Option<usize>)
    ensures
        r matches Some(j) ==> first_index(strs_view(new_args@), x@, 0) == Some(j as nat) && j
            < new_args@.len(),
        r is None ==> first_index(strs_view(new_args@), x@, 0) is None,
{
    let ghost v = strs_view(new_args@);
    let owned = String::from_str(x);
    let mut j: usize = 0;
    while j < new_args.len()
        invariant
            v == strs_view(new_args@),
            j <= new_args@.len(),
            owned@ == x@,
            first_index(v, x@, 0) == first_index(v, x@, j as nat),
        decreases new_args@.len() - j,
    {
        let candidate = String::from_str(new_args[j]);
        if candidate == owned {
            return Some(j);
        }
        j = j + 1;
    }
    None
}

/// Resolves one reference, and records its slot.
fn process_arg_kind<'a>(
    arg_kind: &ArgKind<'a>,
    spec: Option<Spec<'a>>,
    arguments: &[Argument],
    arg_indices: &mut Vec<(usize, Option<Spec<'a>>)>,
    new_args: &mut Vec<&'a str>,
) -> (r: Result<(), String>)
    requires
        arguments@.len() + old(new_args)@.len() < usize::MAX,
    ensures
        match resolve_step(
            (slots_view(old(arg_indices)@), strs_view(old(new_args)@)),
            names_of(arguments@),
            (arg_kind@, opt_spec_view(spec)),
        ) {
            Ok((slots, captured)) => r is Ok && slots_view(final(arg_indices)@) == slots
                && strs_view(final(new_args)@) == captured,
            Err(e) => r matches Err(m) && m@ == e,
        },
        r is Ok ==> final(arg_indices)@.len() == old(arg_indices)@.len() + 1,
        r is Ok ==> final(new_args)@.len() <= old(new_args)@.len() + 1,
{
    let ghost names = names_of(arguments@);
    let index = match arg_kind {
        ArgKind::Positional(index) => {
            if *index >= arguments.len() {
                let mut msg = String::from_str("invalid positional argument index: ");
                push_decimal(&mut msg, *index);
                return Err(msg);
            }
            *index
        },
        ArgKind::Named(ident) => match find_argument(arguments, ident.name()) {
            Some(i) => i,
            None => match find_captured(new_args, ident.name()) {
                Some(j) => arguments.len() + j,
                None => {
                    let new_index = arguments.len() + new_args.len();
                    new_args.push(ident.name());
                    assert(strs_view(new_args@) =~= strs_view(old(new_args)@).push(ident@));
                    new_index
                },
            },
        },
    };
    arg_indices.push((index, spec));
    assert(slots_view(arg_indices@) =~= slots_view(old(arg_indices)@).push(
        (index as nat, opt_spec_view(spec)),
    ));
    Ok(())
}

pub open spec fn refs_view(v: Seq<(&ArgKind, Option<Spec>)>) -> Seq<RefModel> {
    v.map_values(|e: (&ArgKind, Option<Spec>)| (e.0@, opt_spec_view(e.1)))
}

/// Appends the references of `piece` to `refs`.
fn push_piece_refs<'b, 'a>(piece: &'b Piece<'a>, refs: &mut Vec<(&'b ArgKind<'a>, Option<Spec<'a>>)>)
    ensures
        refs_view(final(refs)@) == refs_view(old(refs)@) + piece_refs(piece@),
        final(refs)@.len() <= old(refs)@.len() + 3,
{
    match piece {
        Piece::StdFmt { arg_kind_position, arg_kind_width, arg_kind_precision } => {
            refs.push((arg_kind_position, None));
            match arg_kind_width {
                Some(w) => refs.push((w, None)),
                None => {},
            }
            match arg_kind_precision {
                Some(p) => refs.push((p, None)),
                None => {},
            }
        },
        Piece::CustomFmt { arg_kind, spec } => refs.push((arg_kind, Some(*spec))),
    }
    assert(refs_view(refs@) =~= refs_view(old(refs)@) + piece_refs(piece@));
}

/// Finds the first argument that no slot uses.
fn find_unused(arg_indices: &Vec<(usize, Option<Spec>)>, n: usize) -> (r: Option<usize>)
    ensures
        r matches Some(i) ==> first_unused(slots_view(arg_indices@), n as nat, 0) == Some(i as nat)
            && i < n,
        r is None ==> first_unused(slots_view(arg_indices@), n as nat, 0) is None,
{
    let ghost slots = slots_view(arg_indices@);
    let mut used_args: Vec<bool> = Vec::new();
    let mut i: usize = 0;
    while i < n
        invariant
            i <= n,
            used_args@.len() == i,
            forall|j: int| 0 <= j < i ==> !used_args@[j],
        decreases n - i,
    {
        used_args.push(false);
        i = i + 1;
    }
    let mut k: usize = 0;
    while k < arg_indices.len()
        invariant
            slots == slots_view(arg_indices@),
            k <= arg_indices@.len(),
            used_args@.len() == n,
            forall|j: int|
                0 <= j < n ==> (used_args@[j] <==> exists|m: int|
                    0 <= m < k && slots[m].0 == j),
        decreases arg_indices@.len() - k,
    {
        let index = arg_indices[k].0;
        if index < n {
            used_args.set(index, true);
        }
        proof {
            assert forall|j: int| 0 <= j < n implies (used_args@[j] <==> exists|m: int|
                0 <= m < k + 1 && slots[m].0 == j) by {
                if used_args@[j] && j != index {
                    let m = choose|m: int| 0 <= m < k && slots[m].0 == j;
                    assert(0 <= m < k + 1 && slots[m].0 == j);
                }
                if j == index {
                    assert(slots[k as int].0 == j);
                }
            }
        }
        k = k + 1;
    }
    let mut i: usize = 0;
    while i < n
        invariant
            slots == slots_view(arg_indices@),
            i <= n,
            used_args@.len() == n,
            forall|j: int|
                0 <= j < n ==> (used_args@[j] <==> exists|m: int|
                    0 <= m < arg_indices@.len() && slots[m].0 == j),
            first_unused(slots, n as nat, 0) == first_unused(slots, n as nat, i as nat),
        decreases n - i,
    {
        if !used_args[i] {
            return Some(i);
        }
        i = i + 1;
    }
    None
}

/// Resolves every reference of `pieces` against `arguments`.
///
/// Fails where an unnamed argument follows a named one, where two arguments
/// have one name, where a positional reference has no argument, and where
/// an argument is not used.
pub fn process_pieces<'a>(pieces: Vec<Piece<'a>>, arguments: &[Argument]) -> (r: Result<
    ProcessedPieces<'a>,
    String,
>)
    requires
        arguments@.len() + 3 * pieces@.len() < usize::MAX,
    ensures
        match process_spec(pieces@.map_values(|p: Piece| p@), names_of(arguments@)) {
            Ok((slots, captured)) => r matches Ok(pp) && slots_view(pp.arg_indices@) == slots
                && strs_view(pp.new_args@) == captured,
            Err(e) => r matches Err(m) && m@ == e,
        },
{
    let ghost names = names_of(arguments@);
    let ghost ps = pieces@.map_values(|p: Piece| p@);
    if check_positional_after_named(arguments) {
        return Err(String::from_str("positional arguments cannot follow named arguments"));
    }
    match find_duplicate(arguments) {
        Some(j) => {
            let mut msg = String::from_str("duplicate argument named `");
            match &arguments[j].ident {
                Some(name) => push_str(&mut msg, name.as_str()),
                None => {},
            }
            push_str(&mut msg, "`");
            proof {
                assert(names[j as int] == name_of(arguments@[j as int]));
                lemma_first_duplicate(names, 0);
            }
            return Err(msg);
        },
        None => {},
    }

    let mut refs: Vec<(&ArgKind<'a>, Option<Spec<'a>>)> = Vec::new();
    let mut k: usize = 0;
    while k < pieces.len()
        invariant
            ps == pieces@.map_values(|p: Piece| p@),
            k <= pieces@.len(),
            refs@.len() <= 3 * k,
            refs_view(refs@) == all_refs(ps.take(k as int)),
        decreases pieces@.len() - k,
    {
        push_piece_refs(&pieces[k], &mut refs);
        proof {
            lemma_all_refs_push(ps.take(k as int), ps[k as int]);
            assert(ps.take(k as int).push(ps[k as int]) =~= ps.take(k + 1));
        }
        k = k + 1;
    }
    assert(ps.take(pieces@.len() as int) =~= ps);
    let ghost all = refs_view(refs@);

    let mut arg_indices: Vec<(usize, Option<Spec<'a>>)> = Vec::new();
    let mut new_args: Vec<&'a str> = Vec::new();
    let mut m: usize = 0;
    assert(all.take(0) =~= Seq::<RefModel>::empty());
    assert(slots_view(arg_indices@) =~= Seq::<SlotModel>::empty());
    assert(strs_view(new_args@) =~= Seq::<Seq<char>>::empty());
    while m < refs.len()
        invariant
            names == names_of(arguments@),
            ps == pieces@.map_values(|p: Piece| p@),
            all == refs_view(refs@),
            all == all_refs(ps),
            !positional_after_named(names),
            first_duplicate(names, 0) is None,
            m <= refs@.len(),
            refs@.len() <= 3 * pieces@.len(),
            arguments@.len() + 3 * pieces@.len() < usize::MAX,
            new_args@.len() <= m,
            resolve_refs(all.take(m as int), names) == Ok::<
                (Seq<SlotModel>, Seq<Seq<char>>),
                Seq<char>,
            >((slots_view(arg_indices@), strs_view(new_args@))),
        decreases refs@.len() - m,
    {
        let (arg_kind, spec) = refs[m];
        proof {
            assert(all.take(m + 1) =~= all.take(m as int).push(all[m as int]));
            lemma_resolve_push(all.take(m as int), all[m as int], names);
        }
        match process_arg_kind(arg_kind, spec, arguments, &mut arg_indices, &mut new_args) {
            Err(e) => {
                proof {
                    lemma_resolve_err(all.take(m + 1), all.skip(m + 1), names);
                    assert(all.take(m + 1) + all.skip(m + 1) =~= all);
                }
                return Err(e);
            },
            Ok(()) => {},
        }
        m = m + 1;
    }
    assert(all.take(refs@.len() as int) =~= all);

    match find_unused(&arg_indices, arguments.len()) {
        Some(i) => {
            proof {
                assert(names[i as int] == name_of(arguments@[i as int]));
            }
            match &arguments[i].ident {
                Some(name) => {
                    let mut msg = String::from_str("named argument `");
                    push_str(&mut msg, name.as_str());
                    push_str(&mut msg, "` not used");
                    Err(msg)
                },
                None => {
                    let mut msg = String::from_str("positional argument ");
                    push_decimal(&mut msg, i);
                    push_str(&mut msg, " not used");
                    Err(msg)
                },
            }
        },
        None => Ok(ProcessedPieces { arg_indices, new_args }),
    }
}

proof fn lemma_first_index_some<T>(s: Seq<T>, x: T, k: nat)
    requires
        first_index(s, x, k) is Some,
    ensures
        ({
            let j = first_index(s, x, k)->0;
            k <= j < s.len() && s[j as int] == x && forall|i: int| k <= i < j ==> s[i] != x
        }),
    decreases s.len() - k,
{
    if k < s.len() && s[k as int] != x {
        lemma_first_index_some(s, x, k + 1);
    }
}

proof fn lemma_first_index_none<T>(s: Seq<T>, x: T, k: nat)
    requires
        first_index(s, x, k) is None,
    ensures
        forall|i: int| k <= i < s.len() ==> s[i] != x,
    decreases s.len() - k,
{
    if k < s.len() {
        lemma_first_index_none(s, x, k + 1);
    }
}

proof fn lemma_first_index_at<T>(s: Seq<T>, x: T, k: nat, j: nat)
    requires
        k <= j < s.len(),
        s[j as int] == x,
        forall|i: int| k <= i < j ==> s[i] != x,
    ensures
        first_index(s, x, k) == Some(j),
    decreases j - k,
{
    if k < j {
        lemma_first_index_at(s, x, k + 1, j);
    }
}

/// The slot that a reference resolves to, once `captured` holds the
/// captured identifiers.
pub open spec fn slot_of(r: ArgRef, names: Seq<Option<Seq<char>>>, captured: Seq<Seq<char>>) -> nat {
    match r {
        ArgRef::Positional(i) => i,
        ArgRef::Named(x) => match first_index(names, Some(x), 0) {
            Some(i) => i,
            None => names.len() + first_index(captured, x, 0)->0,
        },
    }
}

/// Whether `r` is a name that no argument has, and that `captured` holds.
pub open spec fn known(r: ArgRef, names: Seq<Option<Seq<char>>>, captured: Seq<Seq<char>>) -> bool {
    match r {
        ArgRef::Positional(_) => true,
        ArgRef::Named(x) => first_index(names, Some(x), 0) is Some || first_index(captured, x, 0) is Some,
    }
}

pub open spec fn no_duplicates(s: Seq<Seq<char>>) -> bool {
    forall|i: int, j: int| 0 <= i < j < s.len() ==> s[i] != s[j]
}

proof fn lemma_resolve_slots(refs: Seq<RefModel>, names: Seq<Option<Seq<char>>>)
    requires
        resolve_refs(refs, names) is Ok,
    ensures
        ({
            let (slots, captured) = resolve_refs(refs, names)->Ok_0;
            &&& slots.len() == refs.len()
            &&& forall|k: int|
                0 <= k < refs.len() ==> #[trigger] slots[k].0 == slot_of(refs[k].0, names, captured)
                    && slots[k].1 == refs[k].1 && known(refs[k].0, names, captured)
            &&& no_duplicates(captured)
        }),
    decreases refs.len(),
{
    if refs.len() > 0 {
        let prev = refs.drop_last();
        lemma_resolve_slots(prev, names);
        let (slots0, cap0) = resolve_refs(prev, names)->Ok_0;
        let r = refs.last();
        let (slots, cap) = resolve_refs(refs, names)->Ok_0;
        if cap != cap0 {
            // a new name is captured
            let x = r.0->Named_0;
            assert(cap == cap0.push(x));
            assert(first_index(cap0, x, 0) is None);
            lemma_first_index_none(cap0, x, 0);
            lemma_first_index_at(cap, x, 0, cap0.len());
            assert forall|y: Seq<char>| #[trigger] first_index(cap0, y, 0) is Some implies first_index(
                cap,
                y,
                0,
            ) == first_index(cap0, y, 0) by {
                lemma_first_index_some(cap0, y, 0);
                let j = first_index(cap0, y, 0)->0;
                lemma_first_index_at(cap, y, 0, j);
            }
            assert forall|k: int| 0 <= k < refs.len() implies #[trigger] slots[k].0 == slot_of(
                refs[k].0,
                names,
                cap,
            ) && slots[k].1 == refs[k].1 && known(refs[k].0, names, cap) by {
                if k < prev.len() {
                    assert(refs[k] == prev[k]);
                    assert(slots[k] == slots0[k]);
                    assert(slots0[k].0 == slot_of(prev[k].0, names, cap0));
                    match refs[k].0 {
                        ArgRef::Named(y) => {
                            if first_index(names, Some(y), 0) is None {
                                assert(first_index(cap0, y, 0) is Some);
                            }
                        },
                        _ => {},
                    }
                }
            }
        } else {
            assert forall|k: int| 0 <= k < refs.len() implies #[trigger] slots[k].0 == slot_of(
                refs[k].0,
                names,
                cap,
            ) && slots[k].1 == refs[k].1 && known(refs[k].0, names, cap) by {
                if k < prev.len() {
                    assert(refs[k] == prev[k]);
                    assert(slots[k] == slots0[k]);
                    assert(slots0[k].0 == slot_of(prev[k].0, names, cap0));
                } else {
                    match r.0 {
                        ArgRef::Named(x) => {
                            if first_index(names, Some(x), 0) is None {
                                assert(first_index(cap0, x, 0) is Some);
                            }
                        },
                        _ => {},
                    }
                }
            }
        }
    }
}

/// Two equal references resolve to the same slot, and a name that no
/// argument has is captured once.
pub proof fn law_equal_references_share_a_slot(
    pieces: Seq<PieceRef>,
    names: Seq<Option<Seq<char>>>,
    k1: int,
    k2: int,
)
    requires
        process_spec(pieces, names) is Ok,
        0 <= k1 < all_refs(pieces).len(),
        0 <= k2 < all_refs(pieces).len(),
        all_refs(pieces)[k1].0 == all_refs(pieces)[k2].0,
    ensures
        ({
            let (slots, captured) = process_spec(pieces, names)->Ok_0;
            &&& slots[k1].0 == slots[k2].0
            &&& no_duplicates(captured)
        }),
{
    lemma_resolve_slots(all_refs(pieces), names);
    let (slots, captured) = process_spec(pieces, names)->Ok_0;
    assert(slots[k1].0 == slot_of(all_refs(pieces)[k1].0, names, captured));
    assert(slots[k2].0 == slot_of(all_refs(pieces)[k2].0, names, captured));
}

proof fn lemma_first_unused_none(slots: Seq<SlotModel>, n: nat, i: nat)
    requires
        first_unused(slots, n, i) is None,
    ensures
        forall|j: nat| i <= j < n ==> #[trigger] is_used(slots, j),
    decreases n - i,
{
    if i < n {
        lemma_first_unused_none(slots, n, i + 1);
    }
}

/// Every argument given is used by some reference, where processing
/// succeeds.
pub proof fn law_every_argument_used(pieces: Seq<PieceRef>, names: Seq<Option<Seq<char>>>, i: nat)
    requires
        process_spec(pieces, names) is Ok,
        i < names.len(),
    ensures
        is_used(process_spec(pieces, names)->Ok_0.0, i),
{
    let (slots, captured) = resolve_refs(all_refs(pieces), names)->Ok_0;
    lemma_first_unused_none(slots, names.len(), 0);
}

/// Once a named argument is given, an unnamed one after it is rejected,
/// whatever the placeholders.
pub proof fn law_positional_after_named_rejected(
    pieces: Seq<PieceRef>,
    names: Seq<Option<Seq<char>>>,
)
    requires
        positional_after_named(names),
    ensures
        process_spec(pieces, names) == Err::<(Seq<SlotModel>, Seq<Seq<char>>), Seq<char>>(
            "positional arguments cannot follow named arguments"@,
        ),
{
}

/// Result of processing the format string `s` with arguments named
/// `names`: the rewritten format string, the slot of every reference, and
/// the captured identifiers.
pub open spec fn format_spec(s: Seq<char>, names: Seq<Option<Seq<char>>>) -> Result<
    (Seq<char>, Seq<SlotModel>, Seq<Seq<char>>),
    Seq<char>,
> {
    match template_spec(s) {
        Err(e) => Err(e),
        Ok((t, ps)) => match process_spec(ps, names) {
            Err(e) => Err(e),
            Ok((slots, captured)) => Ok((t, slots, captured)),
        },
    }
}

/// Parses `format_string`, and resolves its references against
/// `arguments`.
pub fn process_format_string<'a>(format_string: &'a str, arguments: &[Argument]) -> (r: Result<
    (String, ProcessedPieces<'a>),
    String,
>)
    requires
        format_string@.len() * 2 + 3 <= usize::MAX,
        arguments@.len() + 2 * format_string@.len() < usize::MAX,
    ensures
        match format_spec(format_string@, names_of(arguments@)) {
            Ok((t, slots, captured)) => r matches Ok((nt, pp)) && nt@ == t && slots_view(
                pp.arg_indices@,
            ) == slots && strs_view(pp.new_args@) == captured,
            Err(e) => r matches Err(m) && m@ == e,
        },
{
    let (new_format_string, pieces) = match parse_format_string(format_string) {
        Err(e) => return Err(e),
        Ok(x) => x,
    };
    assert(pieces_view(pieces@) == pieces@.map_values(|p: Piece| p@));
    match process_pieces(pieces, arguments) {
        Err(e) => Err(e),
        Ok(processed) => Ok((new_format_string, processed)),
    }
}

} // verus!
