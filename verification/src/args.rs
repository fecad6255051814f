//! The arguments of the command line: the options are taken out of them one
//! by one, and what is left names the directory to start from.

use vstd::prelude::*;
use crate::errors::Error;
use crate::options::{option_text, Flow, Options, OptionsView};
use crate::text::texts;

verus! {

/// What `getopt_rs::getopt` finds in `args` for the option string `optstring`
/// and the long names `long_opts`: the option with its value, if it finds
/// one, and the arguments that it leaves.
pub uninterp spec fn getopt_outcome(
    args: Seq<Seq<char>>,
    optstring: Seq<char>,
    long_opts: Seq<(char, Seq<char>)>,
) -> (Option<(char, Option<Seq<char>>)>, Seq<Seq<char>>);

/// A table of long names, over characters.
pub open spec fn long_views(table: Seq<(char, &'static str)>) -> Seq<(char, Seq<char>)> {
    table.map_values(|o: (char, &'static str)| (o.0, o.1@))
}

/// An option with its value, over characters.
pub open spec fn found_view(found: Option<(char, Option<String>)>) -> Option<
    (char, Option<Seq<char>>),
> {
    match found {
        Some((letter, Some(v))) => Some((letter, Some(v@))),
        Some((letter, None)) => Some((letter, None)),
        None => None,
    }
}

/// Takes the next option out of `args`, by `getopt_rs::getopt`. What comes
/// back, and what is left in `args`, is what `getopt_outcome` names. Beyond
/// that the contract claims two things of `getopt`: where it finds no option
/// it leaves `args` as they are, and where it finds one it takes at least
/// that argument out. With fewer than two arguments `getopt` can fail on a
/// missing value, so the call asks for two.
#[verifier::external_body]
fn next_option(args: &mut Vec<String>, optstring: &str, long_opts: &Vec<(char, &'static str)>) -> (r:
    Option<(char, Option<String>)>)
    requires
        old(args)@.len() >= 2,
    ensures
        (found_view(r), texts(final(args)@)) == getopt_outcome(
            texts(old(args)@),
            optstring@,
            long_views(long_opts@),
        ),
        r is Some ==> final(args)@.len() < old(args)@.len(),
        r is None ==> final(args)@ == old(args)@,
{
    getopt_rs::getopt(args, optstring, long_opts)
}

/// The letters of the options; a `:` marks the one before it as taking a value.
pub open spec fn option_letters() -> Seq<char> {
    "dx:g:n:p:P:t:u:m:hV"@
}

/// The long name of each option.
pub open spec fn long_names() -> Seq<(char, Seq<char>)> {
    seq![
        ('d', "depth"@),
        ('x', "exec"@),
        ('g', "gid"@),
        ('n', "name"@),
        ('p', "path"@),
        ('P', "perms"@),
        ('t', "type"@),
        ('u', "uid"@),
        ('m', "maxdepth"@),
        ('h', "help"@),
        ('V', "version"@),
    ]
}

/// The long name of each option.
fn long_options() -> (table: Vec<(char, &'static str)>)
    ensures
        long_views(table@) == long_names(),
{
    let table = vec![
        ('d', "depth"),
        ('x', "exec"),
        ('g', "gid"),
        ('n', "name"),
        ('p', "path"),
        ('P', "perms"),
        ('t', "type"),
        ('u', "uid"),
        ('m', "maxdepth"),
        ('h', "help"),
        ('V', "version"),
    ];
    assert(long_views(table@) =~= long_names());
    table
}

/// What the command line asks for.
pub enum Request {
    /// Find files below the directory, as the options say.
    Run(Options, String),
    Help,
    Version,
    /// Stop, and report failure.
    Reject,
}

/// What the command line asks for, over characters.
pub enum RequestView {
    Run(OptionsView, Seq<char>),
    Help,
    Version,
    Reject,
}

impl View for Request {
    type V = RequestView;

    open spec fn view(&self) -> RequestView {
        match self {
            Request::Run(o, folder) => RequestView::Run(o@, folder@),
            Request::Help => RequestView::Help,
            Request::Version => RequestView::Version,
            Request::Reject => RequestView::Reject,
        }
    }
}

/// The directory to start from: the argument after the program's name, or
/// `.` where there is none.
pub open spec fn folder(args: Seq<Seq<char>>) -> Seq<char> {
    if args.len() >= 2 {
        args[1]
    } else {
        "."@
    }
}

/// What the arguments `args` ask for, over the options `o` taken in so far.
/// The options are taken out of the arguments one by one until none is found
/// or one of them ends the reading; the first value that cannot be taken is
/// the error. Each option that is found leaves fewer arguments, which is what
/// lets the reading go on.
pub open spec fn parse_from(o: OptionsView, args: Seq<Seq<char>>) -> Result<RequestView, Seq<char>>
    decreases args.len(),
{
    if args.len() < 2 {
        Ok(RequestView::Run(o, folder(args)))
    } else {
        let (found, rest) = getopt_outcome(args, option_letters(), long_names());
        match found {
            None => Ok(RequestView::Run(o, folder(args))),
            Some((letter, value)) => match o.apply(letter, value) {
                Err(e) => Err(e),
                Ok((next, flow)) => match flow {
                    Flow::Help => Ok(RequestView::Help),
                    Flow::Version => Ok(RequestView::Version),
                    Flow::Reject => Ok(RequestView::Reject),
                    Flow::Go => if rest.len() < args.len() {
                        parse_from(next, rest)
                    } else {
                        Ok(RequestView::Run(next, folder(rest)))
                    },
                },
            },
        }
    }
}

/// A request or an error, over characters.
pub open spec fn outcome_view(r: Result<Request, Error>) -> Result<RequestView, Seq<char>> {
    match r {
        Ok(request) => Ok(request@),
        Err(e) => Err(e@),
    }
}

/// The directory to start from.
fn starting_folder(args: &Vec<String>) -> (r: String)
    ensures
        r@ == folder(texts(args@)),
{
    if args.len() >= 2 {
        assert(texts(args@)[1] == args@[1]@);
        args[1].clone()
    } else {
        String::from_str(".")
    }
}

/// Reads the command line. `args` begins with the program's name.
pub fn parse(args: Vec<String>) -> (r: Result<Request, Error>)
    ensures
        outcome_view(r) == parse_from(OptionsView::none(), texts(args@)),
{
    let ghost goal = parse_from(OptionsView::none(), texts(args@));
    let mut left = args;
    let mut options = Options::new();
    let table = long_options();
    while left.len() >= 2
        invariant
            long_views(table@) == long_names(),
            goal == parse_from(OptionsView::none(), texts(args@)),
            goal == parse_from(options@, texts(left@)),
        decreases left@.len(),
    {
        let ghost before = texts(left@);
        match next_option(&mut left, "dx:g:n:p:P:t:u:m:hV", &table) {
            None => {
                return Ok(Request::Run(options, starting_folder(&left)));
            },
            Some((letter, value)) => {
                assert(found_view(Some((letter, value))) == Some((letter, option_text(value))));
                assert(texts(left@).len() < before.len());
                match options.apply(letter, value) {
                    Err(e) => {
                        return Err(e);
                    },
                    Ok(Flow::Help) => {
                        return Ok(Request::Help);
                    },
                    Ok(Flow::Version) => {
                        return Ok(Request::Version);
                    },
                    Ok(Flow::Reject) => {
                        return Ok(Request::Reject);
                    },
                    Ok(Flow::Go) => {},
                }
            },
        }
    }
    Ok(Request::Run(options, starting_folder(&left)))
}

} // verus!
