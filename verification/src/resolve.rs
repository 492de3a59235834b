//! Declaration lookup and place resolution: walking a place's field chain
//! through generic struct instantiations to its static type and the origins
//! embedded along the way.

use vstd::prelude::*;
use crate::ast::{
    FieldDecl, GenericDecl, Parameter, Place, PlaceV, Program, StructDecl, Ty, Variable,
    ty_origins,
};
use crate::seqs::lemma_skip_step;

verus! {

/// The first declared variable with the given name.
pub open spec fn find_variable(vars: Seq<Variable>, name: Seq<char>) -> Option<Variable>
    decreases vars.len(),
{
    if vars.len() == 0 {
        None
    } else if vars[0].name@ == name {
        Some(vars[0])
    } else {
        find_variable(vars.drop_first(), name)
    }
}

/// The first struct declaration with the given name.
pub open spec fn find_struct(decls: Seq<StructDecl>, name: Seq<char>) -> Option<StructDecl>
    decreases decls.len(),
{
    if decls.len() == 0 {
        None
    } else if decls[0].name@ == name {
        Some(decls[0])
    } else {
        find_struct(decls.drop_first(), name)
    }
}

/// The first field declaration with the given name.
pub open spec fn find_field(fields: Seq<FieldDecl>, name: Seq<char>) -> Option<FieldDecl>
    decreases fields.len(),
{
    if fields.len() == 0 {
        None
    } else if fields[0].name@ == name {
        Some(fields[0])
    } else {
        find_field(fields.drop_first(), name)
    }
}

/// The position of the first generic type slot with the given name, counting
/// every slot.
pub open spec fn generic_pos(gens: Seq<GenericDecl>, name: Seq<char>) -> Option<int>
    decreases gens.len(),
{
    if gens.len() == 0 {
        None
    } else if gens[0] is Ty && gens[0]->Ty_0@ == name {
        Some(0)
    } else {
        match generic_pos(gens.drop_first(), name) {
            Some(i) => Some(i + 1),
            None => None,
        }
    }
}

/// The type of a field at an instantiation: a field whose declared type names
/// a generic type slot takes the struct's actual type argument at the slot's
/// position; any other field keeps its declared type. `None` marks the fatal
/// cases: a slot index beyond the arguments, or an origin argument where a
/// type is needed.
pub open spec fn subst_field_ty(gens: Seq<GenericDecl>, substs: Seq<Parameter>, fty: Ty) -> Option<
    Ty,
> {
    match fty {
        Ty::Struct { name, .. } => match generic_pos(gens, name@) {
            Some(i) => if 0 <= i < substs.len() {
                match substs[i] {
                    Parameter::Ty(t) => Some(t),
                    _ => None,
                }
            } else {
                None
            },
            None => Some(fty),
        },
        _ => Some(fty),
    }
}

/// Folds a field chain from a type: the final type and every origin collected
/// root first, each step's parent type contributing its origins before the
/// next field is resolved. `None` marks any fatal lookup failure.
pub open spec fn resolve_rec(pr: Program, t: Ty, fields: Seq<Seq<char>>) -> Option<
    (Ty, Seq<Seq<char>>),
>
    decreases fields.len(),
{
    if fields.len() == 0 {
        Some((t, ty_origins(t)))
    } else {
        match t {
            Ty::Struct { name, parameters } => match find_struct(pr.struct_decls@, name@) {
                Some(decl) => match find_field(decl.field_decls@, fields[0]) {
                    Some(fd) => match subst_field_ty(decl.generic_decls@, parameters@, fd.ty) {
                        Some(next) => match resolve_rec(pr, next, fields.drop_first()) {
                            Some(res) => Some((res.0, ty_origins(t) + res.1)),
                            None => None,
                        },
                        None => None,
                    },
                    None => None,
                },
                None => None,
            },
            _ => None,
        }
    }
}

/// The static type of a place and the origins embedded in it, or `None` on a
/// structural precondition violation. The deref marker only selects the
/// variable; it does not change the type.
pub open spec fn resolve_place(pr: Program, p: PlaceV) -> Option<(Ty, Seq<Seq<char>>)> {
    match find_variable(pr.variables@, p.base) {
        Some(v) => resolve_rec(pr, v.ty, p.fields),
        None => None,
    }
}

/// Whether resolving the place succeeds: the precondition of every emission
/// step that reads or writes it.
pub open spec fn place_resolvable(pr: Program, p: PlaceV) -> bool {
    resolve_place(pr, p) is Some
}

/// The resolved static type of a resolvable place.
pub open spec fn resolved_ty_of(pr: Program, p: PlaceV) -> Ty {
    resolve_place(pr, p)->Some_0.0
}

/// The origins of a resolvable place, root to leaf.
pub open spec fn place_origins(pr: Program, p: PlaceV) -> Seq<Seq<char>> {
    resolve_place(pr, p)->Some_0.1
}

fn find_variable_from<'a>(vars: &'a Vec<Variable>, name: &String, i: usize) -> (r: Option<
    &'a Variable,
>)
    requires
        i <= vars.len(),
    ensures
        match r {
            Some(v) => find_variable(vars@.skip(i as int), name@) == Some(*v),
            None => find_variable(vars@.skip(i as int), name@) is None,
        },
    decreases vars.len() - i,
{
    proof {
        assert(vars@.skip(i as int).len() == vars@.len() - i);
    }
    if i == vars.len() {
        None
    } else {
        proof {
            lemma_skip_step(vars@, i as int);
        }
        if vars[i].name == *name {
            Some(&vars[i])
        } else {
            find_variable_from(vars, name, i + 1)
        }
    }
}

/// Looks a variable up by name.
pub fn find_variable_exec<'a>(vars: &'a Vec<Variable>, name: &String) -> (r: Option<&'a Variable>)
    ensures
        match r {
            Some(v) => find_variable(vars@, name@) == Some(*v),
            None => find_variable(vars@, name@) is None,
        },
{
    let r = find_variable_from(vars, name, 0);
    proof {
        assert(vars@.skip(0) =~= vars@);
    }
    r
}

fn find_struct_from<'a>(decls: &'a Vec<StructDecl>, name: &String, i: usize) -> (r: Option<
    &'a StructDecl,
>)
    requires
        i <= decls.len(),
    ensures
        match r {
            Some(d) => find_struct(decls@.skip(i as int), name@) == Some(*d),
            None => find_struct(decls@.skip(i as int), name@) is None,
        },
    decreases decls.len() - i,
{
    proof {
        assert(decls@.skip(i as int).len() == decls@.len() - i);
    }
    if i == decls.len() {
        None
    } else {
        proof {
            lemma_skip_step(decls@, i as int);
        }
        if decls[i].name == *name {
            Some(&decls[i])
        } else {
            find_struct_from(decls, name, i + 1)
        }
    }
}

/// Looks a struct declaration up by name.
pub fn find_struct_exec<'a>(decls: &'a Vec<StructDecl>, name: &String) -> (r: Option<
    &'a StructDecl,
>)
    ensures
        match r {
            Some(d) => find_struct(decls@, name@) == Some(*d),
            None => find_struct(decls@, name@) is None,
        },
{
    let r = find_struct_from(decls, name, 0);
    proof {
        assert(decls@.skip(0) =~= decls@);
    }
    r
}

fn find_field_from<'a>(fields: &'a Vec<FieldDecl>, name: &String, i: usize) -> (r: Option<
    &'a FieldDecl,
>)
    requires
        i <= fields.len(),
    ensures
        match r {
            Some(d) => find_field(fields@.skip(i as int), name@) == Some(*d),
            None => find_field(fields@.skip(i as int), name@) is None,
        },
    decreases fields.len() - i,
{
    proof {
        assert(fields@.skip(i as int).len() == fields@.len() - i);
    }
    if i == fields.len() {
        None
    } else {
        proof {
            lemma_skip_step(fields@, i as int);
        }
        if fields[i].name == *name {
            Some(&fields[i])
        } else {
            find_field_from(fields, name, i + 1)
        }
    }
}

/// Looks a field declaration up by name.
pub fn find_field_exec<'a>(fields: &'a Vec<FieldDecl>, name: &String) -> (r: Option<
    &'a FieldDecl,
>)
    ensures
        match r {
            Some(d) => find_field(fields@, name@) == Some(*d),
            None => find_field(fields@, name@) is None,
        },
{
    let r = find_field_from(fields, name, 0);
    proof {
        assert(fields@.skip(0) =~= fields@);
    }
    r
}

fn generic_pos_from(gens: &Vec<GenericDecl>, name: &String, i: usize) -> (r: Option<usize>)
    requires
        i <= gens.len(),
    ensures
        match r {
            Some(j) => i <= j < gens.len() && generic_pos(gens@.skip(i as int), name@) == Some(
                j - i,
            ),
            None => generic_pos(gens@.skip(i as int), name@) is None,
        },
    decreases gens.len() - i,
{
    proof {
        assert(gens@.skip(i as int).len() == gens@.len() - i);
    }
    if i == gens.len() {
        None
    } else {
        proof {
            lemma_skip_step(gens@, i as int);
        }
        let hit = match &gens[i] {
            GenericDecl::Ty(n) => *n == *name,
            _ => false,
        };
        if hit {
            Some(i)
        } else {
            generic_pos_from(gens, name, i + 1)
        }
    }
}

/// The position of the first generic type slot with the given name.
pub fn generic_pos_exec(gens: &Vec<GenericDecl>, name: &String) -> (r: Option<usize>)
    ensures
        match r {
            Some(j) => j < gens.len() && generic_pos(gens@, name@) == Some(j as int),
            None => generic_pos(gens@, name@) is None,
        },
{
    let r = generic_pos_from(gens, name, 0);
    proof {
        assert(gens@.skip(0) =~= gens@);
    }
    r
}

} // verus!
