//! The command that is run for each record: how its text falls into a name
//! and arguments, how an argument is made up for one record, and what is
//! said when a run fails.

use vstd::prelude::*;
use crate::errors::Error;
use crate::number::{decimal, decimal_text, signed_decimal, signed_decimal_text};
use crate::sequences::lemma_filter_step;
use crate::text::{
    chars_of, find, find_from, first_index_of, lemma_find_from_is_least, lemma_first_index_of,
    split, split_on, strs, texts,
};

verus! {

/// An argument that stood between single quotes.
pub const SINGLE: u8 = 0;

/// An argument that stood between double quotes.
pub const DOUBLE: u8 = 1;

/// An argument that stood bare, between blanks.
pub const BARE: u8 = 2;

/// The name of the command in `text`: what stands before its first blank.
pub open spec fn command_name(text: Seq<char>) -> Seq<char> {
    text.take(first_index_of(text, ' '))
}

/// What follows the first blank of `text`: nothing where it holds none.
pub open spec fn command_rest(text: Seq<char>) -> Seq<char> {
    let i = first_index_of(text, ' ');
    if 0 <= i < text.len() {
        text.skip(i + 1)
    } else {
        Seq::empty()
    }
}

/// Parts the text of a command into its name and the rest.
pub fn split_command<'a>(text: &'a str) -> (r: (&'a str, &'a str))
    ensures
        r.0@ == command_name(text@),
        r.1@ == command_rest(text@),
{
    let chars = chars_of(text);
    let n: usize = chars.len();
    let mut i: usize = 0;
    while i < n && chars[i] != ' '
        invariant
            chars@ == text@,
            n == text@.len(),
            i <= n,
            forall|j: int| 0 <= j < i ==> text@[j] != ' ',
        decreases n - i,
    {
        i += 1;
    }
    proof {
        lemma_first_index_of(text@, ' ', i as int);
    }
    if i < n {
        (text.substring_char(0, i), text.substring_char(i + 1, n))
    } else {
        (text.substring_char(0, n), text.substring_char(n, n))
    }
}

/// Each of `words` as an argument of kind `kind`.
pub open spec fn tagged(words: Seq<Seq<char>>, kind: u8) -> Seq<(u8, Seq<char>)> {
    words.map_values(|w: Seq<char>| (kind, w))
}

/// The arguments in the first `n` of `parts`, the parts that a text outside
/// single quotes falls into at its double quotes. The parts take turns: one
/// outside the quotes, which falls into bare words at its blanks, then one
/// between them, which is one argument.
pub open spec fn double_quoted(parts: Seq<Seq<char>>, n: nat) -> Seq<(u8, Seq<char>)>
    decreases n,
{
    if n == 0 {
        Seq::empty()
    } else {
        let part = parts[n - 1];
        double_quoted(parts, (n - 1) as nat) + if (n - 1) % 2 == 0 {
            tagged(split(part, ' '), BARE)
        } else {
            seq![(DOUBLE, part)]
        }
    }
}

/// The arguments in the first `n` of `parts`, the parts that a text falls
/// into at its single quotes. The parts take turns: one outside the quotes,
/// in which double quotes count, then one between them, which is one
/// argument.
pub open spec fn single_quoted(parts: Seq<Seq<char>>, n: nat) -> Seq<(u8, Seq<char>)>
    decreases n,
{
    if n == 0 {
        Seq::empty()
    } else {
        let part = parts[n - 1];
        single_quoted(parts, (n - 1) as nat) + if (n - 1) % 2 == 0 {
            double_quoted(split(part, '"'), split(part, '"').len())
        } else {
            seq![(SINGLE, part)]
        }
    }
}

/// The arguments that `text` holds, each with its kind, in order. Empty
/// arguments are left out.
pub open spec fn arguments(text: Seq<char>) -> Seq<(u8, Seq<char>)> {
    single_quoted(split(text, '\''), split(text, '\'').len()).filter(
        |a: (u8, Seq<char>)| a.1.len() > 0,
    )
}

/// Arguments over characters.
pub open spec fn arg_views(args: Seq<(u8, &str)>) -> Seq<(u8, Seq<char>)> {
    args.map_values(|a: (u8, &str)| (a.0, a.1@))
}

/// Adds the bare words of `part`.
fn push_words<'a>(out: &mut Vec<(u8, &'a str)>, part: &'a str)
    ensures
        arg_views(final(out)@) == arg_views(old(out)@) + tagged(split(part@, ' '), BARE),
{
    let words = split_on(part, ' ');
    let n: usize = words.len();
    let mut k: usize = 0;
    let ghost all = tagged(split(part@, ' '), BARE);
    assert(all.take(0) =~= Seq::<(u8, Seq<char>)>::empty());
    assert(arg_views(out@) + all.take(0) =~= arg_views(out@));
    while k < n
        invariant
            n == words@.len(),
            k <= n,
            strs(words@) == split(part@, ' '),
            all == tagged(split(part@, ' '), BARE),
            arg_views(out@) == arg_views(old(out)@) + all.take(k as int),
        decreases n - k,
    {
        let ghost before = out@;
        out.push((BARE, words[k]));
        proof {
            assert(strs(words@)[k as int] == words@[k as int]@);
            assert(arg_views(out@) =~= arg_views(before).push((BARE, words@[k as int]@)));
            assert(all.take(k + 1) =~= all.take(k as int).push(all[k as int]));
            assert(arg_views(out@) =~= arg_views(old(out)@) + all.take(k + 1));
        }
        k += 1;
    }
    assert(all.take(n as int) =~= all);
}

/// Adds the arguments of `part`, a text outside single quotes.
fn push_double_quoted<'a>(out: &mut Vec<(u8, &'a str)>, part: &'a str)
    ensures
        arg_views(final(out)@) == arg_views(old(out)@) + double_quoted(
            split(part@, '"'),
            split(part@, '"').len(),
        ),
{
    let parts = split_on(part, '"');
    let n: usize = parts.len();
    let mut k: usize = 0;
    assert(arg_views(out@) + double_quoted(strs(parts@), 0) =~= arg_views(out@));
    while k < n
        invariant
            n == parts@.len(),
            k <= n,
            strs(parts@) == split(part@, '"'),
            arg_views(out@) == arg_views(old(out)@) + double_quoted(strs(parts@), k as nat),
        decreases n - k,
    {
        let ghost before = out@;
        assert(strs(parts@)[k as int] == parts@[k as int]@);
        if k % 2 == 0 {
            push_words(out, parts[k]);
        } else {
            out.push((DOUBLE, parts[k]));
            assert(arg_views(out@) =~= arg_views(before) + seq![(DOUBLE, parts@[k as int]@)]);
        }
        assert(arg_views(out@) =~= arg_views(old(out)@) + double_quoted(
            strs(parts@),
            (k + 1) as nat,
        ));
        k += 1;
    }
}

/// Parts the text after the name of a command into arguments. What stands
/// between single quotes is one argument of kind `SINGLE`, what stands
/// between double quotes one of kind `DOUBLE`, and the rest falls into
/// arguments of kind `BARE` at its blanks. A quote that is never closed
/// reaches to the end.
pub fn to_args<'a>(s: &'a str) -> (r: Vec<(u8, &'a str)>)
    ensures
        arg_views(r@) == arguments(s@),
{
    let parts = split_on(s, '\'');
    let n: usize = parts.len();
    let mut all: Vec<(u8, &'a str)> = Vec::new();
    let mut k: usize = 0;
    assert(arg_views(all@) =~= single_quoted(strs(parts@), 0));
    while k < n
        invariant
            n == parts@.len(),
            k <= n,
            strs(parts@) == split(s@, '\''),
            arg_views(all@) == single_quoted(strs(parts@), k as nat),
        decreases n - k,
    {
        let ghost before = all@;
        assert(strs(parts@)[k as int] == parts@[k as int]@);
        if k % 2 == 0 {
            push_double_quoted(&mut all, parts[k]);
        } else {
            all.push((SINGLE, parts[k]));
            assert(arg_views(all@) =~= arg_views(before) + seq![(SINGLE, parts@[k as int]@)]);
        }
        k += 1;
    }
    let ghost full = |a: (u8, Seq<char>)| a.1.len() > 0;
    let m: usize = all.len();
    let mut r: Vec<(u8, &'a str)> = Vec::new();
    let mut j: usize = 0;
    assert(arg_views(all@.take(0)) =~= Seq::<(u8, Seq<char>)>::empty());
    while j < m
        invariant
            m == all@.len(),
            j <= m,
            full == |a: (u8, Seq<char>)| a.1.len() > 0,
            arg_views(r@) == arg_views(all@.take(j as int)).filter(full),
        decreases m - j,
    {
        let a = all[j];
        let ghost before = r@;
        let ghost longer = arg_views(all@.take(j + 1));
        proof {
            assert(longer.drop_last() =~= arg_views(all@.take(j as int)));
            assert(longer.last() == (a.0, a.1@));
            lemma_filter_step(longer, full);
        }
        if !a.1.is_empty() {
            r.push(a);
            assert(arg_views(r@) =~= arg_views(before).push((a.0, a.1@)));
        }
        j += 1;
    }
    assert(all@.take(m as int) =~= all@);
    r
}

/// `s` from position `from` on, with each `pat` in it replaced by `by`. The
/// occurrences are taken from left to right, and none of them overlaps the
/// one before it.
pub open spec fn replace_from(s: Seq<char>, pat: Seq<char>, by: Seq<char>, from: int) -> Seq<char>
    decreases s.len() - from,
{
    match find_from(s, pat, from) {
        Some(i) => if from <= i && i + pat.len() <= s.len() && pat.len() > 0 {
            s.subrange(from, i) + by + replace_from(s, pat, by, i + pat.len())
        } else {
            s.skip(from)
        },
        None => s.skip(from),
    }
}

/// The argument `template` of kind `kind` as it is handed to the command for
/// the record at `path`: each `{}` in it stands for the path, and a quoted
/// argument gets its quotes back.
pub open spec fn rendered(kind: u8, template: Seq<char>, path: Seq<char>) -> Seq<char> {
    let filled = replace_from(template, "{}"@, path, 0);
    if kind == SINGLE {
        "'"@ + filled + "'"@
    } else if kind == DOUBLE {
        "\""@ + filled + "\""@
    } else {
        filled
    }
}

/// `template` with the path in the place of each `{}`.
fn fill(template: &str, path: &str) -> (r: String)
    ensures
        r@ == replace_from(template@, "{}"@, path@, 0),
{
    let chars = chars_of(template);
    let n: usize = chars.len();
    let pat = chars_of("{}");
    proof {
        reveal_strlit("{}");
    }
    let mut r = String::from_str("");
    let mut pos: usize = 0;
    proof {
        reveal_strlit("");
        assert(r@ + replace_from(template@, pat@, path@, 0) =~= replace_from(
            template@,
            pat@,
            path@,
            0,
        ));
    }
    loop
        invariant
            chars@ == template@,
            n == template@.len(),
            pat@ == "{}"@,
            pat@.len() == 2,
            pos <= n,
            replace_from(template@, pat@, path@, 0) == r@ + replace_from(
                template@,
                pat@,
                path@,
                pos as int,
            ),
        decreases n - pos,
    {
        let ghost before = r@;
        proof {
            lemma_find_from_is_least(template@, pat@, pos as int);
        }
        match find(&chars, &pat, pos) {
            Some(i) => {
                r.append(template.substring_char(pos, i));
                r.append(path);
                proof {
                    assert(r@ + replace_from(template@, pat@, path@, i + 2) =~= before
                        + replace_from(template@, pat@, path@, pos as int));
                }
                pos = i + 2;
            },
            None => {
                r.append(template.substring_char(pos, n));
                return r;
            },
        }
    }
}

/// Makes up an argument for the record at `path`.
pub fn render(kind: u8, template: &str, path: &str) -> (r: String)
    ensures
        r@ == rendered(kind, template@, path@),
{
    let filled = fill(template, path);
    if kind == SINGLE {
        String::from_str("'").concat(filled.as_str()).concat("'")
    } else if kind == DOUBLE {
        String::from_str("\"").concat(filled.as_str()).concat("\"")
    } else {
        filled
    }
}

/// The arguments of a command for the record at `path`, in order.
pub open spec fn rendered_all(args: Seq<(u8, Seq<char>)>, path: Seq<char>) -> Seq<Seq<char>> {
    args.map_values(|a: (u8, Seq<char>)| rendered(a.0, a.1, path))
}

/// Makes up the arguments of a command for the record at `path`.
pub fn render_all(args: &Vec<(u8, &str)>, path: &str) -> (r: Vec<String>)
    ensures
        texts(r@) == rendered_all(arg_views(args@), path@),
{
    let n: usize = args.len();
    let mut r: Vec<String> = Vec::new();
    let mut k: usize = 0;
    let ghost all = rendered_all(arg_views(args@), path@);
    assert(texts(r@) =~= all.take(0));
    while k < n
        invariant
            n == args@.len(),
            k <= n,
            all == rendered_all(arg_views(args@), path@),
            texts(r@) == all.take(k as int),
        decreases n - k,
    {
        let ghost before = r@;
        let a = args[k];
        let one = render(a.0, a.1, path);
        r.push(one);
        proof {
            assert(arg_views(args@)[k as int] == (a.0, a.1@));
            assert(texts(r@) =~= texts(before).push(one@));
            assert(all.take(k + 1) =~= all.take(k as int).push(all[k as int]));
        }
        k += 1;
    }
    assert(all.take(n as int) =~= all);
    r
}

/// The name of a command and its arguments on one line, a blank between
/// each two of them.
pub open spec fn command_line(name: Seq<char>, args: Seq<Seq<char>>) -> Seq<char>
    decreases args.len(),
{
    if args.len() == 0 {
        name
    } else {
        command_line(name, args.drop_last()) + " "@ + args.last()
    }
}

/// The message for a command that could not be started.
pub open spec fn summon_message(name: Seq<char>, args: Seq<Seq<char>>) -> Seq<char> {
    "Failed to summon command: `"@ + command_line(name, args) + "`"@
}

/// The error for a command that could not be started.
pub fn summon_failure(name: &str, args: &Vec<String>) -> (e: Error)
    ensures
        e@ == summon_message(name@, texts(args@)),
{
    let n: usize = args.len();
    let mut line = String::from_str(name);
    let mut k: usize = 0;
    assert(texts(args@).take(0) =~= Seq::<Seq<char>>::empty());
    while k < n
        invariant
            n == args@.len(),
            k <= n,
            line@ == command_line(name@, texts(args@).take(k as int)),
        decreases n - k,
    {
        let ghost longer = texts(args@).take(k + 1);
        proof {
            assert(longer.drop_last() =~= texts(args@).take(k as int));
            assert(longer.last() == args@[k as int]@);
        }
        line.append(" ");
        line.append(args[k].as_str());
        assert(line@ =~= command_line(name@, longer));
        k += 1;
    }
    assert(texts(args@).take(n as int) =~= texts(args@));
    Error(String::from_str("Failed to summon command: `").concat(line.as_str()).concat("`"))
}

/// The position of the first of `codes` that is not 0.
pub open spec fn first_failure(codes: Seq<i32>) -> Option<int>
    decreases codes.len(),
{
    if codes.len() == 0 {
        None
    } else {
        match first_failure(codes.drop_last()) {
            Some(i) => Some(i),
            None => if codes.last() != 0 {
                Some(codes.len() - 1)
            } else {
                None
            },
        }
    }
}

/// The message for the run at position `index` that ended with `code`.
pub open spec fn exit_message(index: nat, code: i32) -> Seq<char> {
    "Command #"@ + decimal(index) + " failed, exit code: "@ + signed_decimal(code as int) + "."@
}

/// Looks through the exit codes of the runs, one for each record in order. A
/// code of 0 is success; the first other code is the error.
pub fn check_exit_codes(codes: &Vec<i32>) -> (r: Result<(), Error>)
    ensures
        match r {
            Ok(_) => first_failure(codes@) is None,
            Err(e) => first_failure(codes@) matches Some(i) && 0 <= i < codes@.len() && e@
                == exit_message(i as nat, codes@[i]),
        },
{
    let n: usize = codes.len();
    let mut k: usize = 0;
    while k < n
        invariant
            n == codes@.len(),
            k <= n,
            first_failure(codes@.take(k as int)) is None,
        decreases n - k,
    {
        let code = codes[k];
        let ghost longer = codes@.take(k + 1);
        proof {
            assert(longer.drop_last() =~= codes@.take(k as int));
            assert(longer.last() == code);
        }
        if code != 0 {
            proof {
                lemma_first_failure_stays(codes@, k + 1);
            }
            let e = String::from_str("Command #").concat(
                decimal_text(k as u64).as_str(),
            ).concat(" failed, exit code: ").concat(signed_decimal_text(code).as_str()).concat(
                ".",
            );
            return Err(Error(e));
        }
        k += 1;
    }
    assert(codes@.take(n as int) =~= codes@);
    Ok(())
}

/// A failure among the first `n` codes is the first failure of them all.
proof fn lemma_first_failure_stays(codes: Seq<i32>, n: int)
    requires
        0 <= n <= codes.len(),
        first_failure(codes.take(n)) is Some,
    ensures
        first_failure(codes) == first_failure(codes.take(n)),
    decreases codes.len() - n,
{
    if n == codes.len() {
        assert(codes.take(n) =~= codes);
    } else {
        assert(codes.take(n + 1).drop_last() =~= codes.take(n));
        lemma_first_failure_stays(codes, n + 1);
    }
}

} // verus!
