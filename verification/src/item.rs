//! What the attribute is put on: the declaration of a capability, or the
//! registration of an implementation. The item arrives as the few plain
//! facts that decide whether it can be expanded, and what the expansion
//! is named after.

use crate::args::Args;
use vstd::prelude::*;
use vstd::string::StringExecFns;

verus! {

/// A token that an item can begin with.
#[derive(Clone, Copy, Debug, PartialEq, Eq)]
pub enum Lead {
    Unsafe,
    Pub,
    Trait,
    Impl,
    Other,
}

/// The two kinds of item that the attribute stands on.
#[derive(Clone, Copy, Debug, PartialEq, Eq)]
pub enum ItemKind {
    Trait,
    Impl,
}

/// A generic parameter, by its kind.
#[derive(Clone, Copy, Debug, PartialEq, Eq)]
pub enum ParamKind {
    Type,
    Lifetime,
    Const,
}

/// What an impl is an impl of.
#[derive(Clone, Copy, Debug, PartialEq, Eq)]
pub enum ImplTrait {
    /// Of no trait: an inherent impl.
    Inherent,
    /// Of the absence of a trait.
    Negative,
    /// Of a trait.
    Positive,
}

/// The declaration of a capability.
#[derive(Debug)]
pub struct ItemTrait {
    pub ident: String,
    pub generics: Vec<ParamKind>,
}

/// The registration of an implementation.
#[derive(Debug)]
pub struct ItemImpl {
    pub generics: Vec<ParamKind>,
    pub trait_: ImplTrait,
}

/// An item that the attribute stands on.
#[derive(Debug)]
pub enum Item {
    Trait(ItemTrait),
    Impl(ItemImpl),
}

impl Item {
    /// The item that an impl makes. An inherent impl makes none.
    pub fn of_impl(item: ItemImpl) -> (res: Result<Item, ItemError>)
        ensures
            match res {
                Ok(made) => item.trait_ != ImplTrait::Inherent && made == Item::Impl(item),
                Err(error) => item.trait_ == ImplTrait::Inherent && error
                    == ItemError::ExpectedTraitImpl,
            },
    {
        match item.trait_ {
            ImplTrait::Inherent => Err(ItemError::ExpectedTraitImpl),
            _ => Ok(Item::Impl(item)),
        }
    }
}

/// Why an item cannot be expanded. Where a generic parameter is the
/// reason, `at` is its place among the parameters.
#[derive(Clone, Copy, Debug, PartialEq, Eq)]
pub enum ItemError {
    /// The item is neither a trait nor an impl.
    ExpectedItem,
    /// The impl is an inherent one.
    ExpectedTraitImpl,
    /// The trait has a const parameter.
    ConstGenerics { at: usize },
    /// The trait has a lifetime parameter.
    LifetimeGenerics { at: usize },
    /// The impl has a generic parameter.
    ImplGenerics { at: usize },
    /// The impl is not the impl of a trait.
    InherentImpl,
}

impl ItemError {
    /// The words that the error is reported with.
    pub fn message(&self) -> (text: &'static str)
        ensures
            text@ == match *self {
                ItemError::ExpectedItem => "expected one of: `pub`, `trait`, `impl`"@,
                ItemError::ExpectedTraitImpl => "expected a trait impl"@,
                ItemError::ConstGenerics { .. } => "const generics aren't allowed for dyncastable traits"@,
                ItemError::LifetimeGenerics { .. } => "lifetime generics aren't allowed for dyncastable traits"@,
                ItemError::ImplGenerics { .. } => "generics aren't allowed for dyncastable trait impls"@,
                ItemError::InherentImpl => "inherent impls are invalid here"@,
            },
    {
        match self {
            ItemError::ExpectedItem => "expected one of: `pub`, `trait`, `impl`",
            ItemError::ExpectedTraitImpl => "expected a trait impl",
            ItemError::ConstGenerics { .. } => "const generics aren't allowed for dyncastable traits",
            ItemError::LifetimeGenerics { .. } => "lifetime generics aren't allowed for dyncastable traits",
            ItemError::ImplGenerics { .. } => "generics aren't allowed for dyncastable trait impls",
            ItemError::InherentImpl => "inherent impls are invalid here",
        }
    }
}

/// The kind of item that begins with `first` and goes on with `second`. A
/// leading `unsafe` is looked past. `pub` and `trait` begin a trait, `impl`
/// begins an impl, and nothing else begins an item.
pub open spec fn spec_classify(first: Lead, second: Lead) -> Result<ItemKind, ItemError> {
    let lead = if first == Lead::Unsafe {
        second
    } else {
        first
    };
    match lead {
        Lead::Pub => Ok(ItemKind::Trait),
        Lead::Trait => Ok(ItemKind::Trait),
        Lead::Impl => Ok(ItemKind::Impl),
        _ => Err(ItemError::ExpectedItem),
    }
}

/// Tells a trait from an impl by the tokens that the item begins with.
pub fn classify(first: Lead, second: Lead) -> (res: Result<ItemKind, ItemError>)
    ensures
        res == spec_classify(first, second),
{
    let lead = match first {
        Lead::Unsafe => second,
        _ => first,
    };
    match lead {
        Lead::Pub | Lead::Trait => Ok(ItemKind::Trait),
        Lead::Impl => Ok(ItemKind::Impl),
        _ => Err(ItemError::ExpectedItem),
    }
}

/// Whether `at` is the place of the first parameter of the kind `kind`.
pub open spec fn is_first(generics: Seq<ParamKind>, kind: ParamKind, at: int) -> bool {
    &&& 0 <= at < generics.len()
    &&& generics[at] == kind
    &&& forall|i: int| 0 <= i < at ==> generics[i] != kind
}

/// Whether a parameter of the kind `kind` is among `generics`.
pub open spec fn has_kind(generics: Seq<ParamKind>, kind: ParamKind) -> bool {
    exists|i: int| 0 <= i < generics.len() && generics[i] == kind
}

/// The place of the first parameter of the kind `kind`.
pub fn first_of_kind(generics: &Vec<ParamKind>, kind: ParamKind) -> (res: Option<usize>)
    ensures
        match res {
            Some(at) => is_first(generics@, kind, at as int),
            None => !has_kind(generics@, kind),
        },
{
    let mut i: usize = 0;
    while i < generics.len()
        invariant
            i <= generics.len(),
            forall|j: int| 0 <= j < i ==> generics@[j] != kind,
        decreases generics.len() - i,
    {
        let same = match (generics[i], kind) {
            (ParamKind::Type, ParamKind::Type) => true,
            (ParamKind::Lifetime, ParamKind::Lifetime) => true,
            (ParamKind::Const, ParamKind::Const) => true,
            _ => false,
        };
        if same {
            return Some(i);
        }
        i += 1;
    }
    None
}

/// What the expansion of a trait is named after.
#[derive(Debug)]
pub struct TraitExpansion {
    /// The name of the trait that provides the descriptors.
    pub provider: String,
    /// How many type parameters the capability has.
    pub type_params: usize,
}

/// Why a trait with the parameters `generics` cannot be a capability, if
/// it cannot: a const parameter comes before a lifetime parameter,
/// wherever they stand.
pub open spec fn trait_refusal(generics: Seq<ParamKind>) -> Option<ItemError> {
    if has_kind(generics, ParamKind::Const) {
        Some(
            ItemError::ConstGenerics {
                at: (choose|at: int| is_first(generics, ParamKind::Const, at)) as usize,
            },
        )
    } else if has_kind(generics, ParamKind::Lifetime) {
        Some(
            ItemError::LifetimeGenerics {
                at: (choose|at: int| is_first(generics, ParamKind::Lifetime, at)) as usize,
            },
        )
    } else {
        None
    }
}

/// Why an impl cannot register an implementation, if it cannot: any
/// generic parameter, a const parameter before a type parameter before a
/// lifetime parameter, and then an impl that is not the impl of a trait.
pub open spec fn impl_refusal(item: ItemImpl) -> Option<ItemError> {
    let generics = item.generics@;
    if has_kind(generics, ParamKind::Const) {
        Some(
            ItemError::ImplGenerics {
                at: (choose|at: int| is_first(generics, ParamKind::Const, at)) as usize,
            },
        )
    } else if has_kind(generics, ParamKind::Type) {
        Some(
            ItemError::ImplGenerics {
                at: (choose|at: int| is_first(generics, ParamKind::Type, at)) as usize,
            },
        )
    } else if has_kind(generics, ParamKind::Lifetime) {
        Some(
            ItemError::ImplGenerics {
                at: (choose|at: int| is_first(generics, ParamKind::Lifetime, at)) as usize,
            },
        )
    } else if item.trait_ != ImplTrait::Positive {
        Some(ItemError::InherentImpl)
    } else {
        None
    }
}

/// The first parameter of a kind stands at one place only.
pub proof fn lemma_first_is_unique(generics: Seq<ParamKind>, kind: ParamKind, at: int)
    requires
        is_first(generics, kind, at),
    ensures
        has_kind(generics, kind),
        (choose|other: int| is_first(generics, kind, other)) == at,
{
    let other = choose|other: int| is_first(generics, kind, other);
    assert(is_first(generics, kind, other));
    if other < at {
        assert(generics[other] != kind);
    }
    if at < other {
        assert(generics[at] != kind);
    }
}

/// Declares a capability: the trait must have type parameters only. The
/// expansion is named after the trait.
pub fn expand_trait(item: &ItemTrait, _args: &Args) -> (res: Result<TraitExpansion, ItemError>)
    ensures
        match res {
            Ok(expansion) => {
                &&& trait_refusal(item.generics@) is None
                &&& expansion.provider@ == item.ident@ + "DyncastProvider"@
                &&& expansion.type_params == item.generics@.len()
            },
            Err(error) => trait_refusal(item.generics@) == Some(error),
        },
{
    if let Some(at) = first_of_kind(&item.generics, ParamKind::Const) {
        proof {
            lemma_first_is_unique(item.generics@, ParamKind::Const, at as int);
        }
        return Err(ItemError::ConstGenerics { at });
    }
    if let Some(at) = first_of_kind(&item.generics, ParamKind::Lifetime) {
        proof {
            lemma_first_is_unique(item.generics@, ParamKind::Lifetime, at as int);
        }
        return Err(ItemError::LifetimeGenerics { at });
    }
    let provider = item.ident.clone().concat("DyncastProvider");
    Ok(TraitExpansion { provider, type_params: item.generics.len() })
}

/// Registers an implementation: the impl must be the impl of a trait and
/// have no generic parameter.
pub fn expand_impl(item: &ItemImpl, _args: &Args) -> (res: Result<(), ItemError>)
    ensures
        match res {
            Ok(_) => impl_refusal(*item) is None,
            Err(error) => impl_refusal(*item) == Some(error),
        },
{
    if let Some(at) = first_of_kind(&item.generics, ParamKind::Const) {
        proof {
            lemma_first_is_unique(item.generics@, ParamKind::Const, at as int);
        }
        return Err(ItemError::ImplGenerics { at });
    }
    if let Some(at) = first_of_kind(&item.generics, ParamKind::Type) {
        proof {
            lemma_first_is_unique(item.generics@, ParamKind::Type, at as int);
        }
        return Err(ItemError::ImplGenerics { at });
    }
    if let Some(at) = first_of_kind(&item.generics, ParamKind::Lifetime) {
        proof {
            lemma_first_is_unique(item.generics@, ParamKind::Lifetime, at as int);
        }
        return Err(ItemError::ImplGenerics { at });
    }
    match item.trait_ {
        ImplTrait::Positive => Ok(()),
        _ => Err(ItemError::InherentImpl),
    }
}

/// What an item expands to.
#[derive(Debug)]
pub enum Expansion {
    Trait(TraitExpansion),
    Impl,
}

/// Expands the item that the attribute stands on.
pub fn expand(item: &Item, args: &Args) -> (res: Result<Expansion, ItemError>)
    ensures
        match *item {
            Item::Trait(item) => match res {
                Ok(Expansion::Trait(expansion)) => {
                    &&& trait_refusal(item.generics@) is None
                    &&& expansion.provider@ == item.ident@ + "DyncastProvider"@
                    &&& expansion.type_params == item.generics@.len()
                },
                Ok(Expansion::Impl) => false,
                Err(error) => trait_refusal(item.generics@) == Some(error),
            },
            Item::Impl(item) => match res {
                Ok(Expansion::Impl) => impl_refusal(item) is None,
                Ok(Expansion::Trait(_)) => false,
                Err(error) => impl_refusal(item) == Some(error),
            },
        },
{
    match item {
        Item::Trait(item) => match expand_trait(item, args) {
            Ok(expansion) => Ok(Expansion::Trait(expansion)),
            Err(error) => Err(error),
        },
        Item::Impl(item) => match expand_impl(item, args) {
            Ok(_) => Ok(Expansion::Impl),
            Err(error) => Err(error),
        },
    }
}

} // verus!
