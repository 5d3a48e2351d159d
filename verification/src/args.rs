use vstd::prelude::*;

verus! {

/// The startup choice on authentication: a path to a bearer token
/// file, or an explicit opt-out. Exactly one must be given.
#[derive(Debug, PartialEq, Clone)]
pub struct Token {
    pub path: Option<String>,
    pub none: bool,
}

/// Everything the program takes on its command line.
#[derive(Debug, PartialEq, Clone)]
pub struct Args {
    pub token: Token,
}

/// Why a command line was rejected.
#[derive(Debug, PartialEq, Clone)]
pub enum ArgsError {
    UnknownArgument(String),
    MissingValue,
    DuplicateOption,
    MissingTokenChoice,
    ConflictingTokenChoice,
}

/// Mathematical view of a command-line error.
pub enum ArgsErrorView {
    UnknownArgument(Seq<char>),
    MissingValue,
    DuplicateOption,
    MissingTokenChoice,
    ConflictingTokenChoice,
}

impl View for ArgsError {
    type V = ArgsErrorView;

    open spec fn view(&self) -> ArgsErrorView {
        match self {
            ArgsError::UnknownArgument(a) => ArgsErrorView::UnknownArgument(a@),
            ArgsError::MissingValue => ArgsErrorView::MissingValue,
            ArgsError::DuplicateOption => ArgsErrorView::DuplicateOption,
            ArgsError::MissingTokenChoice => ArgsErrorView::MissingTokenChoice,
            ArgsError::ConflictingTokenChoice => ArgsErrorView::ConflictingTokenChoice,
        }
    }
}

/// One pass over the arguments. `--token-path` takes the following
/// argument as its value; `--insecure-no-token` stands alone; either
/// given twice, a path without a value, or any other argument is an
/// error.
pub open spec fn spec_scan_args(
    args: Seq<Seq<char>>,
    path: Option<Seq<char>>,
    none: bool,
) -> Result<(Option<Seq<char>>, bool), ArgsErrorView>
    decreases args.len(),
{
    if args.len() == 0 {
        Ok((path, none))
    } else if args[0] == "--token-path"@ {
        if path is Some {
            Err(ArgsErrorView::DuplicateOption)
        } else if args.len() < 2 {
            Err(ArgsErrorView::MissingValue)
        } else {
            spec_scan_args(args.subrange(2, args.len() as int), Some(args[1]), none)
        }
    } else if args[0] == "--insecure-no-token"@ {
        if none {
            Err(ArgsErrorView::DuplicateOption)
        } else {
            spec_scan_args(args.drop_first(), path, true)
        }
    } else {
        Err(ArgsErrorView::UnknownArgument(args[0]))
    }
}

/// What a command line yields: the scan's outcome, and then the
/// rule that exactly one of the two token choices must be present.
pub open spec fn spec_parse_args(args: Seq<Seq<char>>) -> Result<
    (Option<Seq<char>>, bool),
    ArgsErrorView,
> {
    match spec_scan_args(args, None, false) {
        Err(e) => Err(e),
        Ok((path, none)) => {
            if path is Some && none {
                Err(ArgsErrorView::ConflictingTokenChoice)
            } else if path is None && !none {
                Err(ArgsErrorView::MissingTokenChoice)
            } else {
                Ok((path, none))
            }
        },
    }
}

/// Parses the command line (without the program name). Exactly one
/// of `--token-path <path>` and `--insecure-no-token` is required.
#[verifier::loop_isolation(false)]
pub fn parse(args: Vec<String>) -> (r: Result<Args, ArgsError>)
    ensures
        match r {
            Ok(a) => spec_parse_args(args@.map_values(|s: String| s@)) == Ok::<
                (Option<Seq<char>>, bool),
                ArgsErrorView,
            >((
                match a.token.path {
                    Some(p) => Some(p@),
                    None => None,
                },
                a.token.none,
            )),
            Err(e) => spec_parse_args(args@.map_values(|s: String| s@)) == Err::<
                (Option<Seq<char>>, bool),
                ArgsErrorView,
            >(e@),
        },
{
    let ghost model: Seq<Seq<char>> = args@.map_values(|s: String| s@);
    let path_flag: String = "--token-path".to_owned();
    let none_flag: String = "--insecure-no-token".to_owned();
    let mut path: Option<String> = None;
    let mut none: bool = false;
    let n = args.len();
    let mut i: usize = 0;
    proof {
        assert(model.subrange(0, model.len() as int) =~= model);
    }
    while i < n
        invariant
            0 <= i <= n,
            n == args@.len(),
            model == args@.map_values(|s: String| s@),
            spec_scan_args(model, None, false) == spec_scan_args(
                model.subrange(i as int, model.len() as int),
                match path {
                    Some(p) => Some(p@),
                    None => None,
                },
                none,
            ),
        decreases n - i,
    {
        let ghost suffix: Seq<Seq<char>> = model.subrange(i as int, model.len() as int);
        proof {
            assert(suffix[0] == model[i as int]);
        }
        if args[i] == path_flag {
            if path.is_some() {
                return Err(ArgsError::DuplicateOption);
            }
            if i + 1 >= n {
                return Err(ArgsError::MissingValue);
            }
            path = Some(args[i + 1].clone());
            proof {
                assert(suffix[1] == model[i + 1]);
                assert(suffix.subrange(2, suffix.len() as int) =~= model.subrange(
                    i + 2,
                    model.len() as int,
                ));
            }
            i = i + 2;
        } else if args[i] == none_flag {
            if none {
                return Err(ArgsError::DuplicateOption);
            }
            none = true;
            proof {
                assert(suffix.drop_first() =~= model.subrange(i + 1, model.len() as int));
            }
            i = i + 1;
        } else {
            return Err(ArgsError::UnknownArgument(args[i].clone()));
        }
    }
    proof {
        assert(model.subrange(n as int, model.len() as int) =~= Seq::<Seq<char>>::empty());
    }
    if path.is_some() && none {
        return Err(ArgsError::ConflictingTokenChoice);
    }
    if path.is_none() && !none {
        return Err(ArgsError::MissingTokenChoice);
    }
    Ok(Args { token: Token { path, none } })
}

} // verus!
