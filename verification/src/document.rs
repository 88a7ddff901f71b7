//! The two things that are found in the whole text of a document: the name
//! header and the sections.

use vstd::prelude::*;
use vstd::string::*;
use crate::error::{failure, ErrorKind, Failure, ParseError};
use crate::pattern::{capture_all, find_first, regex_captures_iter, regex_find};
use crate::text::{from_chars, to_chars, trim, trim_of};

verus! {

/// The pattern of the name header: `NAME` at the start of a line, blanks or
/// tabs after it, and the rest of that line. The blanks and tabs do not run
/// over the end of the line: a line that holds `NAME` and nothing else is no
/// header.
pub open spec fn name_pattern() -> Seq<char> {
    "(?m)^NAME[ \\t]+.*"@
}

/// The pattern of a section: a line that holds an indicator (the first
/// group), and after it one or more lines that start with a blank or a tab
/// (the second group). An indicator is one or more words of capital
/// letters with one blank between them, and an apostrophe after the last
/// where there is one, as in `START POINT` and `RHS'`.
pub open spec fn section_pattern() -> Seq<char> {
    "(?m)(^[A-Z]+(?: [A-Z]+)*'?)\\n((^[ \\t]+.*\\n)+)"@
}

/// The name that the header gives: what follows `NAME`, without the white
/// space around it.
pub open spec fn name_from(header: Option<Seq<char>>) -> Result<Seq<char>, Failure> {
    match header {
        None => Err(failure(ErrorKind::MissingName, Seq::empty())),
        Some(line) => if line.len() >= 4 && line.take(4) == "NAME"@ {
            Ok(trim_of(line.skip(4)))
        } else {
            Err(failure(ErrorKind::InvalidName, Seq::empty()))
        },
    }
}

/// The name of the problem that `text` describes.
pub open spec fn name_of(text: Seq<char>) -> Result<Seq<char>, Failure> {
    name_from(regex_find(name_pattern(), text))
}

/// The indicator and the body that the groups of one match give, where both
/// took part in the match.
pub open spec fn section_from(groups: Seq<Option<Seq<char>>>) -> Option<(Seq<char>, Seq<char>)> {
    if groups.len() > 2 && groups[1] is Some && groups[2] is Some {
        Some((groups[1]->0, groups[2]->0))
    } else {
        None
    }
}

/// The sections that the matches give, in order.
pub open spec fn sections_from(matches: Seq<Seq<Option<Seq<char>>>>) -> Seq<
    (Seq<char>, Seq<char>),
>
    decreases matches.len(),
{
    if matches.len() == 0 {
        Seq::empty()
    } else {
        let before = sections_from(matches.drop_last());
        match section_from(matches.last()) {
            Some(s) => before.push(s),
            None => before,
        }
    }
}

/// The sections of `text`, each with its indicator and its body, in the
/// order of the text.
pub open spec fn sections_of(text: Seq<char>) -> Seq<(Seq<char>, Seq<char>)> {
    sections_from(regex_captures_iter(section_pattern(), text))
}

/// The name of the problem, given the header line that was found.
///
/// It is an error if no header was found, or if what was found does not
/// start with `NAME`.
pub fn problem_name_from(header: &Option<String>) -> (r: Result<String, ParseError>)
    ensures
        match r {
            Ok(name) => name_from(header.deep_view()) == Ok::<Seq<char>, Failure>(name@),
            Err(e) => name_from(header.deep_view()) == Err::<Seq<char>, Failure>(e@),
        },
{
    match header {
        None => Err(ParseError::bare(ErrorKind::MissingName)),
        Some(line) => {
            let v = to_chars(line.as_str());
            proof {
                reveal_strlit("NAME");
            }
            if v.len() >= 4 && v[0] == 'N' && v[1] == 'A' && v[2] == 'M' && v[3] == 'E' {
                assert(v@.take(4) =~= "NAME"@);
                let rest = from_chars(&v, 4, v.len());
                assert(v@.subrange(4, v.len() as int) =~= v@.skip(4));
                Ok(trim(rest.as_str()))
            } else {
                proof {
                    if v.len() >= 4 && v@.take(4) == "NAME"@ {
                        assert(v@.take(4)[0] == 'N');
                        assert(v@.take(4)[1] == 'A');
                        assert(v@.take(4)[2] == 'M');
                        assert(v@.take(4)[3] == 'E');
                    }
                }
                Err(ParseError::bare(ErrorKind::InvalidName))
            }
        },
    }
}

/// The name of the problem that `input` describes.
pub fn parse_name(input: &str) -> (r: Result<String, ParseError>)
    ensures
        match r {
            Ok(name) => name_of(input@) == Ok::<Seq<char>, Failure>(name@),
            Err(e) => name_of(input@) == Err::<Seq<char>, Failure>(e@),
        },
{
    let header = find_first("(?m)^NAME[ \\t]+.*", input);
    problem_name_from(&header)
}

/// The sections that the matches of the section pattern give: for each
/// match in which both groups took part, the indicator and the body.
pub fn sections_from_matches(matches: &Vec<Vec<Option<String>>>) -> (r: Vec<(String, String)>)
    ensures
        r.deep_view() == sections_from(matches.deep_view()),
{
    let ghost ms = matches.deep_view();
    let mut out: Vec<(String, String)> = Vec::new();
    let mut i: usize = 0;
    assert(ms.take(0) =~= Seq::empty());
    assert(out.deep_view() =~= Seq::empty());
    while i < matches.len()
        invariant
            i <= matches.len(),
            ms == matches.deep_view(),
            out.deep_view() == sections_from(ms.take(i as int)),
        decreases matches.len() - i,
    {
        let g = &matches[i];
        let ghost before = out.deep_view();
        proof {
            assert(ms.take(i + 1).drop_last() =~= ms.take(i as int));
            assert(ms.take(i + 1).last() == g.deep_view());
        }
        if g.len() > 2 {
            proof {
                assert(g.deep_view()[1] == g@[1].deep_view());
                assert(g.deep_view()[2] == g@[2].deep_view());
            }
            match (&g[1], &g[2]) {
                (Some(indicator), Some(body)) => {
                    out.push((indicator.clone(), body.clone()));
                    assert(out.deep_view() =~= before.push((indicator@, body@)));
                },
                _ => {},
            }
        }
        i = i + 1;
    }
    assert(ms.take(i as int) =~= ms);
    out
}

/// The sections of `input`, each with its indicator and its body, in the
/// order of the text.
pub fn split_sections(input: &str) -> (r: Vec<(String, String)>)
    ensures
        r.deep_view() == sections_of(input@),
{
    let matches = capture_all("(?m)(^[A-Z]+(?: [A-Z]+)*'?)\\n((^[ \\t]+.*\\n)+)", input);
    sections_from_matches(&matches)
}

} // verus!
