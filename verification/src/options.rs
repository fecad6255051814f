//! The options of the command line, and what each of them asks for.

use vstd::prelude::*;
use crate::errors::Error;
use crate::matcher::{pattern_views, FileMatcher, MatcherView};
use crate::number::{number, parse_decimal, parse_octal};
use crate::pattern::{compile, Pattern, Segment};
use crate::text::chars_of;

verus! {

/// What is to happen once an option has been taken in.
#[derive(Debug, PartialEq, Eq, Clone, Copy)]
pub enum Flow {
    /// Go on with the next option.
    Go,
    /// Show the help text and stop.
    Help,
    /// Show the version and stop.
    Version,
    /// Stop, and report failure.
    Reject,
}

/// What the options ask for, over characters.
pub struct OptionsView {
    pub depth: bool,
    pub maxdepth: Option<u32>,
    pub names: Seq<Seq<Segment>>,
    pub paths: Seq<Seq<Segment>>,
    pub ftype: Option<char>,
    pub uid: Option<u32>,
    pub gid: Option<u32>,
    pub perms: Option<u32>,
    pub command: Option<Seq<char>>,
}

/// What the options ask for.
pub struct Options {
    /// Whether a directory comes after what is below it.
    pub depth: bool,
    /// How many levels below the starting directory are listed.
    pub maxdepth: Option<u32>,
    /// The patterns that a base name must match.
    pub names: Vec<Pattern>,
    /// The patterns that a path must match.
    pub paths: Vec<Pattern>,
    pub ftype: Option<char>,
    pub uid: Option<u32>,
    pub gid: Option<u32>,
    pub perms: Option<u32>,
    /// The command to run for each record that is found.
    pub command: Option<String>,
}

impl View for Options {
    type V = OptionsView;

    open spec fn view(&self) -> OptionsView {
        OptionsView {
            depth: self.depth,
            maxdepth: self.maxdepth,
            names: pattern_views(self.names@),
            paths: pattern_views(self.paths@),
            ftype: self.ftype,
            uid: self.uid,
            gid: self.gid,
            perms: self.perms,
            command: match self.command {
                Some(c) => Some(c@),
                None => None,
            },
        }
    }
}

/// The message for an id that is no number.
pub open spec fn invalid_id(value: Seq<char>) -> Seq<char> {
    "Invalid ID: `"@ + value + "`."@
}

/// The message for permission bits that are no octal number.
pub open spec fn invalid_perms(value: Seq<char>) -> Seq<char> {
    "Invalid permission bits: `"@ + value + "`"@
}

/// The message for a file type that is neither `f` nor `d`.
pub open spec fn invalid_type(value: Seq<char>) -> Seq<char> {
    "Invalid file type: `"@ + value + "`."@
}

/// The message for a depth that is no number.
pub open spec fn invalid_depth(value: Seq<char>) -> Seq<char> {
    "Invalid depth: `"@ + value + "`."@
}

/// Whether the option `letter` is one that takes a value.
pub open spec fn takes_value(letter: char) -> bool {
    letter == 'x' || letter == 'g' || letter == 'n' || letter == 'p' || letter == 'P' || letter
        == 't' || letter == 'u' || letter == 'm'
}

impl OptionsView {
    /// Nothing asked for.
    pub open spec fn none() -> OptionsView {
        OptionsView {
            depth: false,
            maxdepth: None,
            names: Seq::empty(),
            paths: Seq::empty(),
            ftype: None,
            uid: None,
            gid: None,
            perms: None,
            command: None,
        }
    }

    /// The options after `letter` was given with the value `v`.
    pub open spec fn with_value(self, letter: char, v: Seq<char>) -> Result<
        OptionsView,
        Seq<char>,
    > {
        if letter == 'x' {
            Ok(OptionsView { command: Some(v), ..self })
        } else if letter == 'n' {
            Ok(OptionsView { names: self.names.push(compile(v)), ..self })
        } else if letter == 'p' {
            Ok(OptionsView { paths: self.paths.push(compile(v)), ..self })
        } else if letter == 'g' {
            match number(v, 10) {
                Some(id) => Ok(OptionsView { gid: Some(id), ..self }),
                None => Err(invalid_id(v)),
            }
        } else if letter == 'u' {
            match number(v, 10) {
                Some(id) => Ok(OptionsView { uid: Some(id), ..self }),
                None => Err(invalid_id(v)),
            }
        } else if letter == 'm' {
            match number(v, 10) {
                Some(d) => Ok(OptionsView { maxdepth: Some(d), ..self }),
                None => Err(invalid_depth(v)),
            }
        } else if letter == 'P' {
            match number(v, 8) {
                Some(bits) => Ok(OptionsView { perms: Some(bits), ..self }),
                None => Err(invalid_perms(v)),
            }
        } else if letter == 't' {
            if v == seq!['f'] || v == seq!['d'] {
                Ok(OptionsView { ftype: Some(v[0]), ..self })
            } else {
                Err(invalid_type(v))
            }
        } else {
            Ok(self)
        }
    }

    /// The options after `letter` was given, and what is to happen next; or
    /// the message for a value that cannot be taken. `h` asks for the help
    /// text, `v` for the version, `d` for a walk that goes depth first. The
    /// options that take a value are rejected without one, but for `x`, which
    /// then asks for no command. Every other letter is rejected.
    pub open spec fn apply(self, letter: char, value: Option<Seq<char>>) -> Result<
        (OptionsView, Flow),
        Seq<char>,
    > {
        if letter == 'h' {
            Ok((self, Flow::Help))
        } else if letter == 'v' {
            Ok((self, Flow::Version))
        } else if letter == 'd' {
            Ok((OptionsView { depth: true, ..self }, Flow::Go))
        } else if takes_value(letter) {
            match value {
                Some(v) => match self.with_value(letter, v) {
                    Ok(o) => Ok((o, Flow::Go)),
                    Err(e) => Err(e),
                },
                None => if letter == 'x' {
                    Ok((OptionsView { command: None, ..self }, Flow::Go))
                } else {
                    Ok((self, Flow::Reject))
                },
            }
        } else {
            Ok((self, Flow::Reject))
        }
    }

    /// What a matcher holds once the options were handed to it.
    pub open spec fn configure(self, m: MatcherView) -> MatcherView {
        MatcherView {
            files: m.files,
            npatterns: m.npatterns + self.names,
            ppatterns: m.ppatterns + self.paths,
            gid: self.gid,
            uid: self.uid,
            perms: self.perms,
            ftype: self.ftype,
        }
    }
}

/// The three parts of a message put together.
fn message(before: &str, value: &str, after: &str) -> (e: Error)
    ensures
        e@ == before@ + value@ + after@,
{
    Error(String::from_str(before).concat(value).concat(after))
}

impl Options {
    /// Nothing asked for.
    pub fn new() -> (o: Options)
        ensures
            o@ == OptionsView::none(),
    {
        let o = Options {
            depth: false,
            maxdepth: None,
            names: Vec::new(),
            paths: Vec::new(),
            ftype: None,
            uid: None,
            gid: None,
            perms: None,
            command: None,
        };
        assert(o@.names =~= Seq::<Seq<Segment>>::empty());
        assert(o@.paths =~= Seq::<Seq<Segment>>::empty());
        o
    }

    /// Takes in the option `letter` with the value that came with it, and says
    /// what is to happen next. Where the value cannot be taken the options
    /// stay as they were.
    pub fn apply(&mut self, letter: char, value: Option<String>) -> (r: Result<Flow, Error>)
        ensures
            match r {
                Ok(flow) => old(self)@.apply(letter, option_text(value)) == Ok::<
                    (OptionsView, Flow),
                    Seq<char>,
                >((final(self)@, flow)),
                Err(e) => old(self)@.apply(letter, option_text(value)) == Err::<
                    (OptionsView, Flow),
                    Seq<char>,
                >(e@) && final(self)@ == old(self)@,
            },
    {
        if letter == 'h' {
            return Ok(Flow::Help);
        }
        if letter == 'v' {
            return Ok(Flow::Version);
        }
        if letter == 'd' {
            self.depth = true;
            return Ok(Flow::Go);
        }
        let takes: bool = letter == 'x' || letter == 'g' || letter == 'n' || letter == 'p'
            || letter == 'P' || letter == 't' || letter == 'u' || letter == 'm';
        if !takes {
            return Ok(Flow::Reject);
        }
        let v: String = match value {
            Some(v) => v,
            None => {
                if letter == 'x' {
                    self.command = None;
                    return Ok(Flow::Go);
                }
                return Ok(Flow::Reject);
            },
        };
        if letter == 'x' {
            self.command = Some(v);
        } else if letter == 'n' {
            let ghost before = self.names@;
            self.names.push(Pattern::new(v.as_str()));
            assert(pattern_views(self.names@) =~= pattern_views(before).push(compile(v@)));
        } else if letter == 'p' {
            let ghost before = self.paths@;
            self.paths.push(Pattern::new(v.as_str()));
            assert(pattern_views(self.paths@) =~= pattern_views(before).push(compile(v@)));
        } else if letter == 'g' {
            match parse_decimal(v.as_str()) {
                Some(id) => {
                    self.gid = Some(id);
                },
                None => {
                    return Err(message("Invalid ID: `", v.as_str(), "`."));
                },
            }
        } else if letter == 'u' {
            match parse_decimal(v.as_str()) {
                Some(id) => {
                    self.uid = Some(id);
                },
                None => {
                    return Err(message("Invalid ID: `", v.as_str(), "`."));
                },
            }
        } else if letter == 'm' {
            match parse_decimal(v.as_str()) {
                Some(d) => {
                    self.maxdepth = Some(d);
                },
                None => {
                    return Err(message("Invalid depth: `", v.as_str(), "`."));
                },
            }
        } else if letter == 'P' {
            match parse_octal(v.as_str()) {
                Some(bits) => {
                    self.perms = Some(bits);
                },
                None => {
                    return Err(message("Invalid permission bits: `", v.as_str(), "`"));
                },
            }
        } else {
            let chars = chars_of(v.as_str());
            if chars.len() == 1 && (chars[0] == 'f' || chars[0] == 'd') {
                assert(v@ =~= seq![chars@[0]]);
                self.ftype = Some(chars[0]);
            } else {
                assert(v@ != seq!['f'] && v@ != seq!['d']) by {
                    if v@.len() == 1 {
                        assert(seq!['f'][0] == 'f');
                        assert(seq!['d'][0] == 'd');
                    }
                }
                return Err(message("Invalid file type: `", v.as_str(), "`."));
            }
        }
        Ok(Flow::Go)
    }

    /// Hands the constraints to a matcher: the patterns are added to those it
    /// has, the others take the place of what it had.
    pub fn configure(&self, m: &mut FileMatcher)
        ensures
            final(m)@ == self@.configure(old(m)@),
    {
        m.set_ftype(self.ftype);
        m.add_npatterns(self.names.as_slice());
        m.add_ppatterns(self.paths.as_slice());
        m.set_uid(self.uid);
        m.set_gid(self.gid);
        m.set_perms(self.perms);
    }
}

/// What `value` holds, where there is one.
pub open spec fn option_text(value: Option<String>) -> Option<Seq<char>> {
    match value {
        Some(v) => Some(v@),
        None => None,
    }
}

} // verus!
