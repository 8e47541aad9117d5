//! The arguments of the attribute that declares a capability: an optional
//! discriminator, made of a name and a numeric seed, that sets the
//! capability's entry collection apart from others of the same name.
//!
//! The argument list arrives as tokens. It is a list of items separated by
//! commas; an item assigns the seed, the name, or the seed and then the
//! name, and may be empty. Each of the two is assigned at most once.

use vstd::prelude::*;
use vstd::string::StrSliceExecFns;

verus! {

/// One token of the argument list.
#[derive(Debug)]
pub enum ArgToken {
    /// The word `seed`.
    Seed,
    /// The word `global_id`.
    GlobalId,
    /// The sign `=`.
    Eq,
    /// The sign `,`.
    Comma,
    /// An integer literal, with its value where it is a `u64` in base ten.
    Int(Option<u64>),
    /// A string literal, with its value.
    Str(String),
    /// Any other token.
    Other,
}

/// What the attribute was given.
#[derive(Debug)]
pub struct Args {
    pub global_id: Option<String>,
    pub seed: Option<u64>,
    /// The place behind the last token.
    pub end: usize,
}

/// `Args` with the name as a sequence of characters.
pub struct ArgsView {
    pub global_id: Option<Seq<char>>,
    pub seed: Option<u64>,
    pub end: nat,
}

impl View for Args {
    type V = ArgsView;

    open spec fn view(&self) -> ArgsView {
        ArgsView {
            global_id: match self.global_id {
                Some(name) => Some(name@),
                None => None,
            },
            seed: self.seed,
            end: self.end as nat,
        }
    }
}

/// The token that an item needs where another one stands, or none.
#[derive(Clone, Copy, Debug, PartialEq, Eq)]
pub enum Expected {
    Eq,
    Comma,
    Integer,
    Str,
}

/// Why an argument list is refused, and the place of the token that it is
/// refused at.
#[derive(Clone, Copy, Debug, PartialEq, Eq)]
pub enum ArgsError {
    /// Another token is needed at this place.
    Expected { at: usize, what: Expected },
    /// The integer literal is no `u64` in base ten.
    BadInteger { at: usize },
    /// The seed is assigned a second time.
    SeedAlreadySet { at: usize },
    /// The name is assigned a second time.
    GlobalIdAlreadySet { at: usize },
    /// The name holds a character that is neither a letter or digit of
    /// ASCII nor `_` nor `:`.
    InvalidGlobalId { at: usize },
    /// Tokens are left behind the list.
    UnexpectedArguments { at: usize },
}

impl ArgsError {
    /// The words that the error is reported with.
    pub fn message(&self) -> (text: &'static str)
        ensures
            text@ == match *self {
                ArgsError::Expected { what: Expected::Eq, .. } => "expected `=`"@,
                ArgsError::Expected { what: Expected::Comma, .. } => "expected `,`"@,
                ArgsError::Expected { what: Expected::Integer, .. } => "expected integer literal"@,
                ArgsError::Expected { what: Expected::Str, .. } => "expected string literal"@,
                ArgsError::BadInteger { .. } => "integer literal out of range"@,
                ArgsError::SeedAlreadySet { .. } => "seed has already been set"@,
                ArgsError::GlobalIdAlreadySet { .. } => "global_id has already been set"@,
                ArgsError::InvalidGlobalId { .. } => "global_id must only contain alphanumeric, '-' or ':' characters"@,
                ArgsError::UnexpectedArguments { .. } => "unexpected arguments"@,
            },
    {
        match self {
            ArgsError::Expected { what: Expected::Eq, .. } => "expected `=`",
            ArgsError::Expected { what: Expected::Comma, .. } => "expected `,`",
            ArgsError::Expected { what: Expected::Integer, .. } => "expected integer literal",
            ArgsError::Expected { what: Expected::Str, .. } => "expected string literal",
            ArgsError::BadInteger { .. } => "integer literal out of range",
            ArgsError::SeedAlreadySet { .. } => "seed has already been set",
            ArgsError::GlobalIdAlreadySet { .. } => "global_id has already been set",
            ArgsError::InvalidGlobalId { .. } => "global_id must only contain alphanumeric, '-' or ':' characters",
            ArgsError::UnexpectedArguments { .. } => "unexpected arguments",
        }
    }
}

/// Whether `c` may stand in the name of a discriminator.
pub open spec fn spec_valid_id_char(c: char) -> bool {
    ||| c == '_'
    ||| c == ':'
    ||| '0' <= c <= '9'
    ||| 'a' <= c <= 'z'
    ||| 'A' <= c <= 'Z'
}

/// Whether every character of `id` may stand in the name of a
/// discriminator.
pub open spec fn spec_valid_id(id: Seq<char>) -> bool {
    forall|i: int| 0 <= i < id.len() ==> spec_valid_id_char(#[trigger] id[i])
}

/// Whether `c` may stand in the name of a discriminator: a letter or digit
/// of ASCII, `_` or `:`.
#[verifier::when_used_as_spec(spec_valid_id_char)]
pub fn valid_id_char(c: char) -> (res: bool)
    ensures
        res == spec_valid_id_char(c),
{
    c == '_' || c == ':' || ('0' <= c && c <= '9') || ('a' <= c && c <= 'z') || ('A' <= c && c
        <= 'Z')
}

/// Whether `id` is the name of a discriminator.
pub fn is_valid_id(id: &str) -> (res: bool)
    ensures
        res == spec_valid_id(id@),
{
    let len = id.unicode_len();
    let mut i: usize = 0;
    while i < len
        invariant
            len == id@.len(),
            i <= len,
            forall|j: int| 0 <= j < i ==> spec_valid_id_char(#[trigger] id@[j]),
        decreases len - i,
    {
        if !valid_id_char(id.get_char(i)) {
            return false;
        }
        i += 1;
    }
    true
}


/// What an item has assigned so far, or why the list is refused.
pub type Progress = Result<(int, Option<u64>, Option<Seq<char>>), ArgsError>;

/// Reads an assignment of the seed at `pos`, if one stands there.
pub open spec fn read_seed(tokens: Seq<ArgToken>, pos: int, seed: Option<u64>) -> Result<
    (int, Option<u64>),
    ArgsError,
> {
    if 0 <= pos < tokens.len() && tokens[pos] is Seed {
        if !(pos + 1 < tokens.len() && tokens[pos + 1] is Eq) {
            Err(ArgsError::Expected { at: (pos + 1) as usize, what: Expected::Eq })
        } else if seed is Some {
            Err(ArgsError::SeedAlreadySet { at: (pos + 2) as usize })
        } else if !(pos + 2 < tokens.len() && tokens[pos + 2] is Int) {
            Err(ArgsError::Expected { at: (pos + 2) as usize, what: Expected::Integer })
        } else {
            match tokens[pos + 2]->Int_0 {
                Some(value) => Ok((pos + 3, Some(value))),
                None => Err(ArgsError::BadInteger { at: (pos + 2) as usize }),
            }
        }
    } else {
        Ok((pos, seed))
    }
}

/// Reads an assignment of the name at `pos`, if one stands there.
pub open spec fn read_global_id(
    tokens: Seq<ArgToken>,
    pos: int,
    global_id: Option<Seq<char>>,
) -> Result<(int, Option<Seq<char>>), ArgsError> {
    if 0 <= pos < tokens.len() && tokens[pos] is GlobalId {
        if !(pos + 1 < tokens.len() && tokens[pos + 1] is Eq) {
            Err(ArgsError::Expected { at: (pos + 1) as usize, what: Expected::Eq })
        } else if global_id is Some {
            Err(ArgsError::GlobalIdAlreadySet { at: (pos + 2) as usize })
        } else if !(pos + 2 < tokens.len() && tokens[pos + 2] is Str) {
            Err(ArgsError::Expected { at: (pos + 2) as usize, what: Expected::Str })
        } else if !spec_valid_id(tokens[pos + 2]->Str_0@) {
            Err(ArgsError::InvalidGlobalId { at: (pos + 2) as usize })
        } else {
            Ok((pos + 3, Some(tokens[pos + 2]->Str_0@)))
        }
    } else {
        Ok((pos, global_id))
    }
}

/// Reads the item at `pos`: the seed, the name, the seed and then the
/// name, or nothing.
pub open spec fn read_item(
    tokens: Seq<ArgToken>,
    pos: int,
    seed: Option<u64>,
    global_id: Option<Seq<char>>,
) -> Progress {
    match read_seed(tokens, pos, seed) {
        Err(error) => Err(error),
        Ok((after_seed, seed)) => match read_global_id(tokens, after_seed, global_id) {
            Err(error) => Err(error),
            Ok((after_name, global_id)) => Ok((after_name, seed, global_id)),
        },
    }
}

/// Reads the items from `pos` to the end of the list.
pub open spec fn read_list(
    tokens: Seq<ArgToken>,
    pos: int,
    seed: Option<u64>,
    global_id: Option<Seq<char>>,
) -> Result<ArgsView, ArgsError>
    decreases tokens.len() - pos,
{
    if pos < 0 || pos >= tokens.len() {
        Ok(ArgsView { global_id, seed, end: tokens.len() })
    } else {
        match read_item(tokens, pos, seed, global_id) {
            Err(error) => Err(error),
            Ok((after, seed, global_id)) => {
                if after >= tokens.len() {
                    Ok(ArgsView { global_id, seed, end: tokens.len() })
                } else if after >= pos && tokens[after] is Comma {
                    read_list(tokens, after + 1, seed, global_id)
                } else {
                    Err(ArgsError::Expected { at: after as usize, what: Expected::Comma })
                }
            },
        }
    }
}

/// What the argument list `tokens` assigns, or why it is refused.
pub open spec fn spec_parse(tokens: Seq<ArgToken>) -> Result<ArgsView, ArgsError> {
    read_list(tokens, 0, None, None)
}

/// The name that the list has assigned, as the characters it is made of.
pub open spec fn name_of(global_id: Option<String>) -> Option<Seq<char>> {
    match global_id {
        Some(name) => Some(name@),
        None => None,
    }
}

impl Args {
    /// Reads the argument list of the attribute.
    pub fn parse(tokens: &Vec<ArgToken>) -> (res: Result<Self, ArgsError>)
        ensures
            match res {
                Ok(args) => spec_parse(tokens@) == Ok::<ArgsView, ArgsError>(args@),
                Err(error) => spec_parse(tokens@) == Err::<ArgsView, ArgsError>(error),
            },
            res matches Ok(args) ==> args.end == tokens.len(),
            !(res matches Err(ArgsError::UnexpectedArguments { .. })),
    {
        match Self::try_parse(tokens) {
            Ok(args) => {
                if args.end == tokens.len() {
                    Ok(args)
                } else {
                    Err(ArgsError::UnexpectedArguments { at: args.end })
                }
            },
            Err(error) => Err(error),
        }
    }

    fn try_parse(tokens: &Vec<ArgToken>) -> (res: Result<Self, ArgsError>)
        ensures
            match res {
                Ok(args) => spec_parse(tokens@) == Ok::<ArgsView, ArgsError>(args@) && args.end
                    == tokens.len(),
                Err(error) => spec_parse(tokens@) == Err::<ArgsView, ArgsError>(error) && !(
                error is UnexpectedArguments),
            },
    {
        let mut global_id: Option<String> = None;
        let mut seed: Option<u64> = None;
        let mut pos: usize = 0;
        let len = tokens.len();
        loop
            invariant
                len == tokens@.len(),
                pos <= len,
                read_list(tokens@, pos as int, seed, name_of(global_id)) == spec_parse(tokens@),
            decreases len - pos,
        {
            if pos >= len {
                return Ok(Args { global_id, seed, end: len });
            }
            let ghost start = pos;
            let ghost seed_before = seed;
            let ghost name_before = name_of(global_id);
            if let ArgToken::Seed = &tokens[pos] {
                if !(pos + 1 < len && matches!(&tokens[pos + 1], ArgToken::Eq)) {
                    return Err(ArgsError::Expected { at: pos + 1, what: Expected::Eq });
                }
                if seed.is_some() {
                    return Err(ArgsError::SeedAlreadySet { at: pos + 2 });
                }
                if pos + 2 >= len {
                    return Err(ArgsError::Expected { at: pos + 2, what: Expected::Integer });
                }
                match &tokens[pos + 2] {
                    ArgToken::Int(Some(value)) => {
                        seed = Some(*value);
                    },
                    ArgToken::Int(None) => {
                        return Err(ArgsError::BadInteger { at: pos + 2 });
                    },
                    _ => {
                        return Err(ArgsError::Expected { at: pos + 2, what: Expected::Integer });
                    },
                }
                pos += 3;
            }
            assert(read_seed(tokens@, start as int, seed_before) == Ok::<
                (int, Option<u64>),
                ArgsError,
            >((pos as int, seed)));
            let ghost after_seed = pos;
            if pos < len {
                if let ArgToken::GlobalId = &tokens[pos] {
                    if !(pos + 1 < len && matches!(&tokens[pos + 1], ArgToken::Eq)) {
                        return Err(ArgsError::Expected { at: pos + 1, what: Expected::Eq });
                    }
                    if global_id.is_some() {
                        return Err(ArgsError::GlobalIdAlreadySet { at: pos + 2 });
                    }
                    if pos + 2 >= len {
                        return Err(ArgsError::Expected { at: pos + 2, what: Expected::Str });
                    }
                    match &tokens[pos + 2] {
                        ArgToken::Str(val) => {
                            if !is_valid_id(val.as_str()) {
                                return Err(ArgsError::InvalidGlobalId { at: pos + 2 });
                            }
                            global_id = Some(val.clone());
                        },
                        _ => {
                            return Err(ArgsError::Expected { at: pos + 2, what: Expected::Str });
                        },
                    }
                    pos += 3;
                }
            }
            assert(read_global_id(tokens@, after_seed as int, name_before) == Ok::<
                (int, Option<Seq<char>>),
                ArgsError,
            >((pos as int, name_of(global_id))));
            if pos >= len {
                return Ok(Args { global_id, seed, end: len });
            }
            if !matches!(&tokens[pos], ArgToken::Comma) {
                return Err(ArgsError::Expected { at: pos, what: Expected::Comma });
            }
            pos += 1;
        }
    }
}

} // verus!
