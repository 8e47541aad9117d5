use dyncast::args::{is_valid_id, valid_id_char, ArgToken, Args, ArgsError, Expected};
use dyncast::item::{
    classify, expand, expand_impl, expand_trait, first_of_kind, Expansion, ImplTrait, Item,
    ItemError, ItemImpl, ItemKind, ItemTrait, Lead, ParamKind,
};

fn text(value: &str) -> ArgToken {
    ArgToken::Str(value.to_string())
}

fn no_args() -> Args {
    Args::parse(&Vec::new()).unwrap()
}

#[test]
fn empty_list_assigns_nothing() {
    let args = Args::parse(&Vec::new()).unwrap();
    assert_eq!(args.global_id, None);
    assert_eq!(args.seed, None);
    assert_eq!(args.end, 0);
}

#[test]
fn name_alone() {
    let args = Args::parse(&vec![ArgToken::GlobalId, ArgToken::Eq, text("generics::Boba")]).unwrap();
    assert_eq!(args.global_id, Some("generics::Boba".to_string()));
    assert_eq!(args.seed, None);
    assert_eq!(args.end, 3);
}

#[test]
fn name_and_seed() {
    let args = Args::parse(&vec![
        ArgToken::GlobalId,
        ArgToken::Eq,
        text("seeded::Boba"),
        ArgToken::Comma,
        ArgToken::Seed,
        ArgToken::Eq,
        ArgToken::Int(Some(1337)),
    ])
    .unwrap();
    assert_eq!(args.global_id, Some("seeded::Boba".to_string()));
    assert_eq!(args.seed, Some(1337));
    assert_eq!(args.end, 7);
}

#[test]
fn seed_then_name_in_one_item() {
    let args = Args::parse(&vec![
        ArgToken::Seed,
        ArgToken::Eq,
        ArgToken::Int(Some(u64::MAX)),
        ArgToken::GlobalId,
        ArgToken::Eq,
        text("a_b"),
        ArgToken::Comma,
    ])
    .unwrap();
    assert_eq!(args.seed, Some(u64::MAX));
    assert_eq!(args.global_id, Some("a_b".to_string()));
}

#[test]
fn name_then_seed_needs_a_comma() {
    let res = Args::parse(&vec![
        ArgToken::GlobalId,
        ArgToken::Eq,
        text("a"),
        ArgToken::Seed,
        ArgToken::Eq,
        ArgToken::Int(Some(1)),
    ]);
    assert_eq!(
        res.err(),
        Some(ArgsError::Expected {
            at: 3,
            what: Expected::Comma
        })
    );
}

#[test]
fn empty_items_are_passed_over() {
    let args = Args::parse(&vec![
        ArgToken::Comma,
        ArgToken::Comma,
        ArgToken::Seed,
        ArgToken::Eq,
        ArgToken::Int(Some(5)),
        ArgToken::Comma,
        ArgToken::Comma,
    ])
    .unwrap();
    assert_eq!(args.seed, Some(5));
    assert_eq!(args.global_id, None);
    assert_eq!(args.end, 7);
}

#[test]
fn seed_twice() {
    let res = Args::parse(&vec![
        ArgToken::Seed,
        ArgToken::Eq,
        ArgToken::Int(Some(1)),
        ArgToken::Comma,
        ArgToken::Seed,
        ArgToken::Eq,
        ArgToken::Int(Some(2)),
    ]);
    let error = res.err().unwrap();
    assert_eq!(error, ArgsError::SeedAlreadySet { at: 6 });
    assert_eq!(error.message(), "seed has already been set");
}

#[test]
fn name_twice() {
    let res = Args::parse(&vec![
        ArgToken::GlobalId,
        ArgToken::Eq,
        text("a"),
        ArgToken::Comma,
        ArgToken::GlobalId,
        ArgToken::Eq,
        text("b"),
    ]);
    let error = res.err().unwrap();
    assert_eq!(error, ArgsError::GlobalIdAlreadySet { at: 6 });
    assert_eq!(error.message(), "global_id has already been set");
}

#[test]
fn name_with_a_character_out_of_range() {
    let res = Args::parse(&vec![ArgToken::GlobalId, ArgToken::Eq, text("generics-Boba")]);
    let error = res.err().unwrap();
    assert_eq!(error, ArgsError::InvalidGlobalId { at: 2 });
    assert_eq!(
        error.message(),
        "global_id must only contain alphanumeric, '-' or ':' characters"
    );
}

#[test]
fn missing_tokens() {
    assert_eq!(
        Args::parse(&vec![ArgToken::Seed]).err(),
        Some(ArgsError::Expected {
            at: 1,
            what: Expected::Eq
        })
    );
    assert_eq!(
        Args::parse(&vec![ArgToken::Seed, ArgToken::Eq]).err(),
        Some(ArgsError::Expected {
            at: 2,
            what: Expected::Integer
        })
    );
    assert_eq!(
        Args::parse(&vec![ArgToken::Seed, ArgToken::Eq, text("1")]).err(),
        Some(ArgsError::Expected {
            at: 2,
            what: Expected::Integer
        })
    );
    assert_eq!(
        Args::parse(&vec![ArgToken::Seed, ArgToken::Eq, ArgToken::Int(None)]).err(),
        Some(ArgsError::BadInteger { at: 2 })
    );
    assert_eq!(
        Args::parse(&vec![ArgToken::GlobalId, ArgToken::Comma]).err(),
        Some(ArgsError::Expected {
            at: 1,
            what: Expected::Eq
        })
    );
    assert_eq!(
        Args::parse(&vec![ArgToken::GlobalId, ArgToken::Eq, ArgToken::Int(Some(1))]).err(),
        Some(ArgsError::Expected {
            at: 2,
            what: Expected::Str
        })
    );
    assert_eq!(
        Args::parse(&vec![ArgToken::Other]).err(),
        Some(ArgsError::Expected {
            at: 0,
            what: Expected::Comma
        })
    );
    assert_eq!(
        Args::parse(&vec![ArgToken::Eq]).err().unwrap().message(),
        "expected `,`"
    );
}

#[test]
fn characters_of_a_name() {
    for c in ['_', ':', '0', '9', 'a', 'z', 'A', 'Z', 'm', '5'] {
        assert!(valid_id_char(c), "{c}");
    }
    for c in ['-', ' ', '/', ';', '@', '[', '`', '{', 'é', '\u{0}', '٣'] {
        assert!(!valid_id_char(c), "{c}");
    }
    assert!(is_valid_id(""));
    assert!(is_valid_id("seeded::Boba_2"));
    assert!(!is_valid_id("seeded::Boba 2"));
    assert!(!is_valid_id("bobá"));
}

#[test]
fn items_by_their_first_tokens() {
    assert_eq!(classify(Lead::Trait, Lead::Other), Ok(ItemKind::Trait));
    assert_eq!(classify(Lead::Pub, Lead::Trait), Ok(ItemKind::Trait));
    assert_eq!(classify(Lead::Impl, Lead::Other), Ok(ItemKind::Impl));
    assert_eq!(classify(Lead::Unsafe, Lead::Impl), Ok(ItemKind::Impl));
    assert_eq!(classify(Lead::Unsafe, Lead::Trait), Ok(ItemKind::Trait));
    assert_eq!(classify(Lead::Unsafe, Lead::Other), Err(ItemError::ExpectedItem));
    assert_eq!(classify(Lead::Unsafe, Lead::Unsafe), Err(ItemError::ExpectedItem));
    assert_eq!(classify(Lead::Other, Lead::Trait), Err(ItemError::ExpectedItem));
}

#[test]
fn first_parameter_of_a_kind() {
    let generics = vec![
        ParamKind::Type,
        ParamKind::Lifetime,
        ParamKind::Type,
        ParamKind::Lifetime,
    ];
    assert_eq!(first_of_kind(&generics, ParamKind::Type), Some(0));
    assert_eq!(first_of_kind(&generics, ParamKind::Lifetime), Some(1));
    assert_eq!(first_of_kind(&generics, ParamKind::Const), None);
    assert_eq!(first_of_kind(&Vec::new(), ParamKind::Type), None);
}

#[test]
fn trait_with_type_parameters_is_a_capability() {
    let item = ItemTrait {
        ident: "Convert".to_string(),
        generics: vec![ParamKind::Type, ParamKind::Type],
    };
    let expansion = expand_trait(&item, &no_args()).unwrap();
    assert_eq!(expansion.provider, "ConvertDyncastProvider");
    assert_eq!(expansion.type_params, 2);
}

#[test]
fn trait_with_other_parameters_is_refused() {
    let item = ItemTrait {
        ident: "Boba".to_string(),
        generics: vec![ParamKind::Type, ParamKind::Lifetime, ParamKind::Const],
    };
    let error = expand_trait(&item, &no_args()).err().unwrap();
    assert_eq!(error, ItemError::ConstGenerics { at: 2 });
    assert_eq!(
        error.message(),
        "const generics aren't allowed for dyncastable traits"
    );

    let item = ItemTrait {
        ident: "Boba".to_string(),
        generics: vec![ParamKind::Type, ParamKind::Lifetime, ParamKind::Lifetime],
    };
    let error = expand_trait(&item, &no_args()).err().unwrap();
    assert_eq!(error, ItemError::LifetimeGenerics { at: 1 });
    assert_eq!(
        error.message(),
        "lifetime generics aren't allowed for dyncastable traits"
    );
}

#[test]
fn impl_without_parameters_registers() {
    let item = ItemImpl {
        generics: Vec::new(),
        trait_: ImplTrait::Positive,
    };
    assert_eq!(expand_impl(&item, &no_args()), Ok(()));
}

#[test]
fn impl_with_parameters_is_refused() {
    let refusals = [
        (vec![ParamKind::Lifetime, ParamKind::Type, ParamKind::Const], 2),
        (vec![ParamKind::Lifetime, ParamKind::Type], 1),
        (vec![ParamKind::Lifetime, ParamKind::Lifetime], 0),
        (vec![ParamKind::Type], 0),
    ];
    for (generics, at) in refusals {
        let item = ItemImpl {
            generics,
            trait_: ImplTrait::Positive,
        };
        let error = expand_impl(&item, &no_args()).err().unwrap();
        assert_eq!(error, ItemError::ImplGenerics { at });
        assert_eq!(
            error.message(),
            "generics aren't allowed for dyncastable trait impls"
        );
    }
}

#[test]
fn impl_of_no_trait_is_refused() {
    for trait_ in [ImplTrait::Inherent, ImplTrait::Negative] {
        let item = ItemImpl {
            generics: Vec::new(),
            trait_,
        };
        let error = expand_impl(&item, &no_args()).err().unwrap();
        assert_eq!(error, ItemError::InherentImpl);
        assert_eq!(error.message(), "inherent impls are invalid here");
    }
    // Parameters are looked at first.
    let item = ItemImpl {
        generics: vec![ParamKind::Type],
        trait_: ImplTrait::Inherent,
    };
    assert_eq!(
        expand_impl(&item, &no_args()),
        Err(ItemError::ImplGenerics { at: 0 })
    );
}

#[test]
fn inherent_impl_makes_no_item() {
    let res = Item::of_impl(ItemImpl {
        generics: Vec::new(),
        trait_: ImplTrait::Inherent,
    });
    let error = res.err().unwrap();
    assert_eq!(error, ItemError::ExpectedTraitImpl);
    assert_eq!(error.message(), "expected a trait impl");

    let res = Item::of_impl(ItemImpl {
        generics: Vec::new(),
        trait_: ImplTrait::Negative,
    });
    assert!(matches!(res, Ok(Item::Impl(_))));
}

#[test]
fn expand_goes_by_the_kind_of_item() {
    let item = Item::Trait(ItemTrait {
        ident: "Boba".to_string(),
        generics: Vec::new(),
    });
    match expand(&item, &no_args()) {
        Ok(Expansion::Trait(expansion)) => {
            assert_eq!(expansion.provider, "BobaDyncastProvider");
            assert_eq!(expansion.type_params, 0);
        }
        other => panic!("{other:?}"),
    }
    let item = Item::Impl(ItemImpl {
        generics: Vec::new(),
        trait_: ImplTrait::Positive,
    });
    assert!(matches!(expand(&item, &no_args()), Ok(Expansion::Impl)));
    let item = Item::Impl(ItemImpl {
        generics: vec![ParamKind::Const],
        trait_: ImplTrait::Positive,
    });
    assert_eq!(
        expand(&item, &no_args()).err(),
        Some(ItemError::ImplGenerics { at: 0 })
    );
}

#[test]
fn words_of_every_error() {
    assert_eq!(
        ArgsError::Expected {
            at: 0,
            what: Expected::Eq
        }
        .message(),
        "expected `=`"
    );
    assert_eq!(
        ArgsError::Expected {
            at: 0,
            what: Expected::Integer
        }
        .message(),
        "expected integer literal"
    );
    assert_eq!(
        ArgsError::Expected {
            at: 0,
            what: Expected::Str
        }
        .message(),
        "expected string literal"
    );
    assert_eq!(
        ArgsError::BadInteger { at: 0 }.message(),
        "integer literal out of range"
    );
    assert_eq!(
        ArgsError::UnexpectedArguments { at: 0 }.message(),
        "unexpected arguments"
    );
    assert_eq!(
        ItemError::ExpectedItem.message(),
        "expected one of: `pub`, `trait`, `impl`"
    );
}
