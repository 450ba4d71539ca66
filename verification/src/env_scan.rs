//! References to environment variables in the sources of a project: the
//! names that follow `process.env.`, and where each reference stands.
//!
//! The references are found by a regular expression. What the expression
//! matches is left to the crate `regex`; what is made of its matches is
//! decided here.

use crate::pattern::{compile, first_groups, first_groups_of, Pattern};
use crate::project::{env_location, option_texts, VarLocation, VarLocationView};
use crate::text::{chars_of, contains, lines, same_text, split_lines, string_of, trim, views_of};
use vstd::prelude::*;

verus! {

/// The characters of each string of a list.
pub open spec fn names_of(names: Seq<String>) -> Seq<Seq<char>> {
    Seq::new(names.len(), |i: int| names[i]@)
}

/// The views of a list of locations.
pub open spec fn location_views(locations: Seq<VarLocation>) -> Seq<VarLocationView> {
    Seq::new(locations.len(), |i: int| locations[i]@)
}

/// `names` with `name` at its end, unless it holds `name` already.
pub open spec fn with_name(names: Seq<Seq<char>>, name: Seq<char>) -> Seq<Seq<char>> {
    if names.contains(name) {
        names
    } else {
        names.push(name)
    }
}

/// `names` with each of `found` that it does not hold yet at its end, in
/// the order of `found`.
pub open spec fn with_names(names: Seq<Seq<char>>, found: Seq<Seq<char>>) -> Seq<Seq<char>>
    decreases found.len(),
{
    if found.len() == 0 {
        names
    } else {
        with_name(with_names(names, found.drop_last()), found.last())
    }
}

/// Adds to `names` each of `found` that it does not hold yet.
pub fn add_names(names: &mut Vec<String>, found: Vec<String>)
    ensures
        names_of(final(names)@) == with_names(names_of(old(names)@), names_of(found@)),
{
    let ghost all = names_of(found@);
    let ghost start = names_of(names@);
    for name in it: found
        invariant
            it.seq() == found@,
            all == names_of(found@),
            names_of(names@) == with_names(start, all.take(it.index() as int)),
    {
        let ghost before = names@;
        proof {
            assert(all.take(it.index() + 1).drop_last() == all.take(it.index() as int));
        }
        let mut known = false;
        let mut i: usize = 0;
        while i < names.len() && !known
            invariant
                i <= names.len(),
                names@ == before,
                known ==> names_of(before).contains(name@),
                !known ==> forall|j: int| 0 <= j < i ==> names_of(before)[j] != name@,
            decreases names.len() - i + (if known { 0int } else { 1int }),
        {
            if same_text(names[i].as_str(), name.as_str()) {
                assert(names_of(before)[i as int] == name@);
                known = true;
            } else {
                i += 1;
            }
        }
        if !known {
            names.push(name);
        }
    }
    assert(all.take(found@.len() as int) == all);
}

/// The expression for a reference to an environment variable: `process.env.`
/// and then, as its first group, a name of one or more word characters.
pub open spec fn reference_expression() -> Seq<char> {
    "process\\.env\\.(\\w+)"@
}

/// The texts of the groups that took part in their matches, in their order.
pub open spec fn present(groups: Seq<Option<Seq<char>>>) -> Seq<Seq<char>>
    decreases groups.len(),
{
    if groups.len() == 0 {
        Seq::empty()
    } else {
        match groups.last() {
            Some(name) => present(groups.drop_last()).push(name),
            None => present(groups.drop_last()),
        }
    }
}

/// The names that the matches of `expression` in `text` refer to: one for
/// each match whose first group took part, in the order of the matches.
pub open spec fn references_in(expression: Seq<char>, text: Seq<char>) -> Seq<Seq<char>> {
    present(first_groups_of(expression, text))
}

/// The places of references to `names` in line `number` of `file`: one for
/// each name, in their order, each with the line without the whitespace
/// around it.
pub open spec fn line_locations(
    file: Seq<char>,
    number: nat,
    line: Seq<char>,
    names: Seq<Seq<char>>,
) -> Seq<VarLocationView> {
    Seq::new(
        names.len(),
        |i: int| VarLocationView { variable: names[i], file, line: number, snippet: trim(line) },
    )
}

/// The places of the matches of `expression` in a file whose lines are
/// `rows`: those of the first line, then those of the second, and so on.
/// Lines are numbered from 1.
pub open spec fn locations_in(expression: Seq<char>, file: Seq<char>, rows: Seq<Seq<char>>) -> Seq<
    VarLocationView,
>
    decreases rows.len(),
{
    if rows.len() == 0 {
        Seq::empty()
    } else {
        locations_in(expression, file, rows.drop_last()) + line_locations(
            file,
            rows.len(),
            rows.last(),
            references_in(expression, rows.last()),
        )
    }
}

/// The texts of the groups that took part in their matches, in their order.
/// Each of them is one of `groups`.
pub fn taking_part(groups: Vec<Option<String>>) -> (names: Vec<String>)
    ensures
        names_of(names@) == present(option_texts(groups@)),
        forall|i: int|
            0 <= i < names@.len() ==> exists|j: int|
                0 <= j < groups@.len() && groups@[j] == Some(#[trigger] names@[i]),
{
    let mut names: Vec<String> = Vec::new();
    let ghost all = option_texts(groups@);
    assert(names_of(names@) =~= Seq::<Seq<char>>::empty());
    assert(all.take(0) =~= Seq::<Option<Seq<char>>>::empty());
    for group in it: groups
        invariant
            it.seq() == groups@,
            all == option_texts(groups@),
            names_of(names@) == present(all.take(it.index() as int)),
            forall|i: int|
                0 <= i < names@.len() ==> exists|j: int|
                    0 <= j < groups@.len() && groups@[j] == Some(#[trigger] names@[i]),
    {
        let ghost before = names@;
        let ghost at = it.index() as int;
        proof {
            assert(all.take(at + 1).drop_last() =~= all.take(at));
            assert(all.take(at + 1).last() == all[at]);
        }
        match group {
            Some(name) => {
                names.push(name);
                proof {
                    assert(names_of(names@) =~= names_of(before).push(name@));
                    assert forall|i: int| 0 <= i < names@.len() implies exists|j: int|
                        0 <= j < groups@.len() && groups@[j] == Some(#[trigger] names@[i]) by {
                        if i < before.len() {
                            assert(names@[i] == before[i]);
                        } else {
                            assert(groups@[at] == Some(names@[i]));
                        }
                    }
                }
            },
            None => {},
        }
    }
    assert(all.take(groups@.len() as int) =~= all);
    names
}

/// A search for references to environment variables.
pub struct EnvScanner {
    reference: Pattern,
}

impl EnvScanner {
    /// The expression that this search looks for.
    pub closed spec fn expression(&self) -> Seq<char> {
        self.reference@
    }

    /// The search for the matches of `reference`; nothing where there is no
    /// such expression.
    pub fn over(reference: Option<Pattern>) -> (scanner: Option<EnvScanner>)
        ensures
            match reference {
                Some(pattern) => scanner is Some && scanner->Some_0.expression() == pattern@,
                None => scanner is None,
            },
    {
        match reference {
            Some(reference) => Some(EnvScanner { reference }),
            None => None,
        }
    }

    /// The search for names behind `process.env.`; nothing where the crate
    /// `regex` does not accept the expression for them.
    pub fn new() -> (scanner: Option<EnvScanner>)
        ensures
            scanner matches Some(s) ==> s.expression() == reference_expression(),
    {
        Self::over(compile("process\\.env\\.(\\w+)"))
    }

    /// The names that the references in `content` refer to, one for each
    /// reference, in the order of the references. Each name stands in
    /// `content`.
    pub fn names(&self, content: &str) -> (names: Vec<String>)
        ensures
            names_of(names@) == references_in(self.expression(), content@),
            forall|i: int| 0 <= i < names@.len() ==> contains(content@, #[trigger] names@[i]@),
    {
        let groups = first_groups(&self.reference, content);
        let names = taking_part(groups);
        assert forall|i: int| 0 <= i < names@.len() implies contains(
            content@,
            #[trigger] names@[i]@,
        ) by {
            let j = choose|j: int| 0 <= j < groups@.len() && groups@[j] == Some(names@[i]);
            assert(groups@[j] matches Some(name) ==> contains(content@, name@));
        }
        names
    }

    /// The references in `content`, the text of `file`: line by line, and in
    /// each line in the order in which they stand. Each reference is shown
    /// with the number of its line, counted from 1, and with the line
    /// without the whitespace around it; the name it refers to stands in
    /// that line.
    pub fn locations(&self, file: &str, content: &str) -> (found: Vec<VarLocation>)
        ensures
            location_views(found@) == locations_in(self.expression(), file@, lines(content@)),
            forall|i: int|
                0 <= i < found@.len() ==> {
                    let at = #[trigger] found@[i]@;
                    &&& at.file == file@
                    &&& 1 <= at.line <= lines(content@).len()
                    &&& at.snippet == trim(lines(content@)[at.line - 1])
                    &&& contains(lines(content@)[at.line - 1], at.variable)
                },
            forall|i: int, j: int|
                0 <= i <= j < found@.len() ==> (#[trigger] found@[i]).line <= (
                #[trigger] found@[j]).line,
    {
        let text = chars_of(content);
        let rows = split_lines(&text);
        let ghost all = lines(content@);
        let ghost expression = self.expression();
        let mut found: Vec<VarLocation> = Vec::new();
        let mut n: usize = 0;
        assert(location_views(found@) =~= Seq::<VarLocationView>::empty());
        assert(all.take(0) =~= Seq::<Seq<char>>::empty());
        while n < rows.len()
            invariant
                n <= rows.len(),
                views_of(rows@) == all,
                all == lines(content@),
                expression == self.expression(),
                location_views(found@) == locations_in(expression, file@, all.take(n as int)),
                forall|i: int|
                    0 <= i < found@.len() ==> {
                        let at = #[trigger] found@[i]@;
                        &&& at.file == file@
                        &&& 1 <= at.line <= n
                        &&& at.snippet == trim(all[at.line - 1])
                        &&& contains(all[at.line - 1], at.variable)
                    },
                forall|i: int, j: int|
                    0 <= i <= j < found@.len() ==> (#[trigger] found@[i]).line <= (
                    #[trigger] found@[j]).line,
            decreases rows.len() - n,
        {
            assert(rows@.len() == all.len());
            assert(all[n as int] == rows@[n as int]@);
            let line = string_of(&rows[n], 0, rows[n].len());
            assert(line@ == all[n as int]);
            let names = self.names(line.as_str());
            let ghost start = location_views(found@);
            let ghost refs = names_of(names@);
            proof {
                assert(all.take(n + 1).drop_last() =~= all.take(n as int));
                assert(all.take(n + 1).last() == line@);
                assert(line_locations(file@, (n + 1) as nat, line@, refs.take(0))
                    =~= Seq::<VarLocationView>::empty());
                assert(start + Seq::<VarLocationView>::empty() =~= start);
            }
            for name in it: names
                invariant
                    it.seq() == names@,
                    refs == names_of(names@),
                    n < rows.len() == all.len(),
                    line@ == all[n as int],
                    forall|i: int| 0 <= i < names@.len() ==> contains(line@, #[trigger] names@[i]@),
                    location_views(found@) == start + line_locations(
                        file@,
                        (n + 1) as nat,
                        line@,
                        refs.take(it.index() as int),
                    ),
                    forall|i: int|
                        0 <= i < found@.len() ==> {
                            let at = #[trigger] found@[i]@;
                            &&& at.file == file@
                            &&& 1 <= at.line <= n + 1
                            &&& at.snippet == trim(all[at.line - 1])
                            &&& contains(all[at.line - 1], at.variable)
                        },
                    forall|i: int, j: int|
                        0 <= i <= j < found@.len() ==> (#[trigger] found@[i]).line <= (
                        #[trigger] found@[j]).line,
            {
                let ghost before = found@;
                let ghost k = it.index() as int;
                let location = env_location(name.as_str(), file, n, line.as_str());
                found.push(location);
                proof {
                    assert(name == names@[k]);
                    let sofar = line_locations(file@, (n + 1) as nat, line@, refs.take(k));
                    let next = line_locations(file@, (n + 1) as nat, line@, refs.take(k + 1));
                    assert(next =~= sofar.push(location@));
                    assert(location_views(found@) =~= location_views(before).push(location@));
                    assert((start + sofar).push(location@) =~= start + next);
                }
                assert forall|i: int, j: int| 0 <= i <= j < found@.len() implies (
                #[trigger] found@[i]).line <= (#[trigger] found@[j]).line by {
                    if i < before.len() <= j {
                        assert(before[i]@.line <= n + 1);
                    }
                }
            }
            proof {
                assert(refs.take(names@.len() as int) =~= refs);
            }
            n += 1;
        }
        assert(all.take(rows@.len() as int) =~= all);
        found
    }
}

} // verus!
