//! Glob patterns, as the `globset` crate reads and matches them.
//!
//! A rule is the text of a pattern with its two options: whether letter case is
//! ignored, and whether `/` in a path is matched only by a literal `/`.

use vstd::prelude::*;

use crate::text::chars_of;
#[allow(unused_imports)]
use crate::text::{copies, upper};

verus! {

#[verifier::external_type_specification]
#[verifier::external_body]
pub struct ExGlobSetBuilder(globset::GlobSetBuilder);

#[verifier::external_type_specification]
#[verifier::external_body]
pub struct ExGlobSet(globset::GlobSet);

#[verifier::external_type_specification]
#[verifier::external_body]
pub struct ExGlobError(globset::Error);

/// The rules that a builder holds, in the order in which they were added.
pub uninterp spec fn builder_rules(builder: globset::GlobSetBuilder) -> Seq<
    (Seq<char>, bool, bool),
>;

/// The rules that a compiled set holds.
pub uninterp spec fn set_rules(set: globset::GlobSet) -> Seq<(Seq<char>, bool, bool)>;

/// What `globset::GlobBuilder::build` finds wrong with a pattern: its error
/// message, or nothing where the pattern is well formed.
pub uninterp spec fn glob_complaint(pattern: Seq<char>) -> Option<Seq<char>>;

/// Tells whether a glob matches a path: the pattern, its two options, the path.
pub uninterp spec fn glob_matches(
    pattern: Seq<char>,
    case_insensitive: bool,
    literal_separator: bool,
    path: Seq<char>,
) -> bool;

/// A text without backslashes. What a backslash means to a glob, in the pattern
/// and in the path, differs from platform to platform.
pub open spec fn portable(s: Seq<char>) -> bool {
    !s.contains('\\')
}

/// The path as a rule sees it: where letter case is ignored, with its ASCII letters in
/// upper case.
pub open spec fn folded(path: Seq<char>, case_insensitive: bool) -> Seq<char> {
    if case_insensitive {
        upper(path)
    } else {
        path
    }
}

/// The most braces that a pattern may leave open. The regular expression engine refuses
/// what is nested deeper, and `globset` goes down one stack frame for each.
pub const MAX_OPEN_BRACES: usize = 250;

/// A closing brace behind the given text closes one: there is no class that it could
/// stand in, and nothing that could escape it.
pub open spec fn is_closable(s: Seq<char>) -> bool {
    !s.contains('[') && !s.contains('\\')
}

/// The number of braces that a text leaves open, at most.
pub open spec fn open_braces(s: Seq<char>) -> nat
    decreases s.len(),
{
    if s.len() == 0 {
        0
    } else {
        let before = open_braces(s.drop_last());
        if s.last() == '{' {
            before + 1
        } else if s.last() == '}' && before > 0 && is_closable(s.drop_last()) {
            (before - 1) as nat
        } else {
            before
        }
    }
}

/// Somewhere in the pattern more braces may be open than are allowed.
pub open spec fn is_too_deep(pattern: Seq<char>) -> bool {
    exists|k: int|
        0 <= k <= pattern.len() && open_braces(#[trigger] pattern.take(k)) > MAX_OPEN_BRACES
}

/// Tells whether somewhere in the pattern more braces may be open than are allowed.
pub fn nests_too_deep(pattern: &str) -> (r: bool)
    ensures
        r == is_too_deep(pattern@),
{
    let chars: Vec<char> = chars_of(pattern);
    let mut open: usize = 0;
    let mut closable: bool = true;
    let mut i: usize = 0;
    proof {
        assert(pattern@.take(0) == Seq::<char>::empty());
    }
    while i < chars.len()
        invariant
            chars@ == pattern@,
            i <= chars@.len(),
            open == open_braces(pattern@.take(i as int)),
            open <= MAX_OPEN_BRACES,
            closable == is_closable(pattern@.take(i as int)),
            forall|k: int|
                0 <= k <= i ==> open_braces(#[trigger] pattern@.take(k)) <= MAX_OPEN_BRACES,
        decreases chars@.len() - i,
    {
        let c: char = chars[i];
        proof {
            let s = pattern@.take(i as int);
            let t = pattern@.take(i + 1);
            assert(t == s.push(c));
            assert(t.drop_last() == s);
            assert(t[i as int] == c);
            assert forall|x: char| #[trigger] t.contains(x) == (s.contains(x) || x == c) by {
                if s.contains(x) {
                    let j = choose|j: int| 0 <= j < s.len() && s[j] == x;
                    assert(t[j] == x);
                }
                if t.contains(x) {
                    let j = choose|j: int| 0 <= j < t.len() && t[j] == x;
                    if j < s.len() {
                        assert(s[j] == x);
                    }
                }
            }
        }
        if c == '{' {
            open += 1;
        } else if c == '}' && open > 0 && closable {
            open -= 1;
        }
        if c == '[' || c == '\\' {
            closable = false;
        }
        i += 1;
        if open > MAX_OPEN_BRACES {
            assert(open_braces(pattern@.take(i as int)) > MAX_OPEN_BRACES);
            return true;
        }
    }
    false
}

/// The path with slashes in place of backslashes: what a set sees of it where a backslash
/// separates directories.
pub open spec fn slashed(path: Seq<char>) -> Seq<char> {
    path.map_values(
        |c: char|
            if c == '\\' {
                '/'
            } else {
                c
            },
    )
}

/// Every rule is free of backslashes.
pub open spec fn portable_rules(rules: Seq<(Seq<char>, bool, bool)>) -> bool {
    forall|p: Seq<char>, ci: bool, ls: bool| #[trigger]
        rules.contains((p, ci, ls)) ==> portable(p)
}

/// Some rule without a backslash matches the path, taken as it is.
pub open spec fn portable_rule_matches(
    rules: Seq<(Seq<char>, bool, bool)>,
    path: Seq<char>,
) -> bool {
    exists|p: Seq<char>, ci: bool, ls: bool|
        rules.contains((p, ci, ls)) && portable(p) && #[trigger] glob_matches(
            p,
            ci,
            ls,
            folded(path, ci),
        )
}

/// Some rule matches the path.
pub open spec fn some_rule_matches(rules: Seq<(Seq<char>, bool, bool)>, path: Seq<char>) -> bool {
    exists|p: Seq<char>, ci: bool, ls: bool|
        rules.contains((p, ci, ls)) && #[trigger] glob_matches(p, ci, ls, folded(path, ci))
}

/// The path and every rule are free of backslashes.
pub open spec fn all_portable(rules: Seq<(Seq<char>, bool, bool)>, path: Seq<char>) -> bool {
    &&& portable(path)
    &&& forall|i: int| 0 <= i < rules.len() ==> portable(#[trigger] rules[i].0)
}

/// `globset::GlobSetBuilder::new`: a builder without patterns.
pub assume_specification[ globset::GlobSetBuilder::new ]() -> (r: globset::GlobSetBuilder)
    ensures
        builder_rules(r) == Seq::<(Seq<char>, bool, bool)>::empty(),
;

/// `globset::GlobBuilder::build` followed by `globset::GlobSetBuilder::add`: a
/// pattern that parses is added behind the others, one that does not leaves the
/// builder as it was and comes back with the parser's message. Whether a pattern
/// parses and what the message says depend on its text alone, as long as the text
/// has no backslash; with one, they also depend on the platform's path separator
/// and are left open. Too many braces within each other would exhaust the stack.
#[verifier::external_body]
pub(crate) fn add_glob(
    builder: &mut globset::GlobSetBuilder,
    pattern: &str,
    case_insensitive: bool,
    literal_separator: bool,
) -> (r: Result<(), String>)
    requires
        !is_too_deep(pattern@),
    ensures
        match r {
            Ok(_) => builder_rules(*final(builder)) == builder_rules(*old(builder)).push(
                (pattern@, case_insensitive, literal_separator),
            ),
            Err(_) => *final(builder) == *old(builder),
        },
        portable(pattern@) ==> match r {
            Ok(_) => glob_complaint(pattern@) is None,
            Err(message) => glob_complaint(pattern@) == Some(message@),
        },
{
    let glob = globset::GlobBuilder::new(pattern)
        .case_insensitive(case_insensitive)
        .literal_separator(literal_separator)
        .build()
        .map_err(|e| e.to_string())?;
    builder.add(glob);
    Ok(())
}

/// `globset::GlobSetBuilder::build`: the compiled set holds the builder's rules.
/// A set without rules always compiles. Whether another one does rests on a size
/// limit of the regular expression engine, measured in bytes of memory, and is
/// left open.
pub assume_specification[ globset::GlobSetBuilder::build ](
    builder: &globset::GlobSetBuilder,
) -> (r: Result<globset::GlobSet, globset::Error>)
    ensures
        r matches Ok(set) ==> set_rules(set) == builder_rules(*builder),
        builder_rules(*builder).len() == 0 ==> r is Ok,
;

/// `globset::GlobSet::is_match`: true exactly when some glob of the set matches
/// the path. A glob that ignores case is matched by a regular expression with the
/// flags `(?-u)(?i)`, so that the case of the path's ASCII letters makes no
/// difference. A set without globs matches nothing. Where the platform separates
/// directories with backslashes, those of the path are turned into slashes first: so the
/// answer is that for the path as it is, or that for the path with slashes. What a
/// pattern with a backslash matches depends on the platform and is left open.
#[verifier::external_body]
pub(crate) fn set_matches(set: &globset::GlobSet, path: &str) -> (r: bool)
    ensures
        r ==> (exists|p: Seq<char>, ci: bool, ls: bool|
            set_rules(*set).contains((p, ci, ls)) && portable(p) && #[trigger] glob_matches(
                p,
                ci,
                ls,
                folded(path@, ci),
            )) || portable_rule_matches(set_rules(*set), slashed(path@)) || !portable_rules(
            set_rules(*set),
        ),
        portable_rule_matches(set_rules(*set), path@) && portable_rule_matches(
            set_rules(*set),
            slashed(path@),
        ) ==> r,
        set_rules(*set).len() == 0 ==> !r,
{
    set.is_match(path)
}

/// A text is portable exactly where none of its characters has the code 92; seen with
/// slashes, those characters have the code 47 and all others are as they were.
pub proof fn law_backslashes(s: Seq<char>)
    ensures
        portable(s) <==> forall|i: int| 0 <= i < s.len() ==> (#[trigger] s[i]) as int != 92,
        slashed(s).len() == s.len(),
        forall|i: int|
            0 <= i < s.len() ==> if s[i] as int == 92 {
                (#[trigger] slashed(s)[i]) as int == 47
            } else {
                slashed(s)[i] == s[i]
            },
{
    if portable(s) {
        assert forall|i: int| 0 <= i < s.len() implies (#[trigger] s[i]) as int != 92 by {
            assert(s.contains(s[i]));
        }
    }
}

/// Where case is ignored a rule sees the path in upper case, else as it is.
pub proof fn law_folding(path: Seq<char>)
    ensures
        folded(path, true) == upper(path),
        folded(path, false) == path,
{
}

/// More than 250 braces opened in a row are too many, wherever they stand.
pub proof fn law_many_open_braces_are_too_deep(front: Seq<char>, n: nat, back: Seq<char>)
    requires
        n > 250,
    ensures
        is_too_deep(front + copies('{', n) + back),
{
    let s = front + copies('{', n);
    let k = s.len() as int;
    lemma_braces_in_a_row(front, n);
    assert((s + back).take(k) =~= s);
    assert(open_braces((s + back).take(k)) > MAX_OPEN_BRACES);
}

/// Braces in a row are all counted.
proof fn lemma_braces_in_a_row(front: Seq<char>, n: nat)
    ensures
        open_braces(front + copies('{', n)) == open_braces(front) + n,
    decreases n,
{
    let s = front + copies('{', n);
    if n > 0 {
        lemma_braces_in_a_row(front, (n - 1) as nat);
        assert(s.drop_last() =~= front + copies('{', (n - 1) as nat));
        assert(s.last() == '{');
    } else {
        assert(s =~= front);
    }
}

/// A pattern with no more than 250 opening braces is not too deep.
pub proof fn law_few_braces_are_not_too_deep(pattern: Seq<char>)
    requires
        pattern.filter(|c: char| c == '{').len() <= 250,
    ensures
        !is_too_deep(pattern),
{
    assert forall|k: int| 0 <= k <= pattern.len() implies open_braces(#[trigger] pattern.take(k))
        <= MAX_OPEN_BRACES by {
        lemma_at_most_the_opening_ones(pattern.take(k));
        lemma_fewer_in_front(pattern, k);
    }
}

/// No more braces are open than were opened.
proof fn lemma_at_most_the_opening_ones(s: Seq<char>)
    ensures
        open_braces(s) <= s.filter(|c: char| c == '{').len(),
    decreases s.len(),
{
    reveal(Seq::filter);
    if s.len() > 0 {
        lemma_at_most_the_opening_ones(s.drop_last());
    }
}

/// The front of a text does not hold more opening braces than the text.
proof fn lemma_fewer_in_front(s: Seq<char>, k: int)
    requires
        0 <= k <= s.len(),
    ensures
        s.take(k).filter(|c: char| c == '{').len() <= s.filter(|c: char| c == '{').len(),
    decreases s.len(),
{
    reveal(Seq::filter);
    if k < s.len() {
        lemma_fewer_in_front(s.drop_last(), k);
        assert(s.drop_last().take(k) =~= s.take(k));
    } else {
        assert(s.take(k) =~= s);
    }
}

/// A brace that is closed again does not count: behind a group without braces, classes and
/// escapes there are as many open as in front of it.
pub proof fn law_closed_braces_do_not_count(front: Seq<char>, group: Seq<char>)
    requires
        !front.contains('['),
        !front.contains('\\'),
        !group.contains('['),
        !group.contains('\\'),
        !group.contains('{'),
        !group.contains('}'),
    ensures
        open_braces(front.push('{') + group + seq!['}']) == open_braces(front),
{
    let opened = front.push('{');
    let inside = opened + group;
    let s = inside + seq!['}'];
    assert(opened.drop_last() =~= front);
    lemma_other_characters(opened, group);
    assert(s.drop_last() =~= inside);
    assert(s.last() == '}');
    assert forall|c: char| #[trigger] inside.contains(c) implies front.contains(c) || c == '{'
        || group.contains(c) by {
        let i = choose|i: int| 0 <= i < inside.len() && inside[i] == c;
        if i < front.len() {
            assert(front[i] == c);
        } else if i > front.len() {
            assert(group[i - opened.len()] == c);
        }
    }
}

/// Other characters open and close nothing.
proof fn lemma_other_characters(front: Seq<char>, group: Seq<char>)
    requires
        !group.contains('{'),
        !group.contains('}'),
    ensures
        open_braces(front + group) == open_braces(front),
    decreases group.len(),
{
    let s = front + group;
    if group.len() > 0 {
        let rest = group.drop_last();
        assert forall|c: char| #[trigger] rest.contains(c) implies group.contains(c) by {
            let i = choose|i: int| 0 <= i < rest.len() && rest[i] == c;
            assert(group[i] == c);
        }
        lemma_other_characters(front, rest);
        assert(s.drop_last() =~= front + rest);
        assert(group.contains(group.last()));
    } else {
        assert(s =~= front);
    }
}

/// Some rule of a list matches exactly where the one at some position does.
pub proof fn law_rules_match_one_by_one(rules: Seq<(Seq<char>, bool, bool)>, path: Seq<char>)
    ensures
        some_rule_matches(rules, path) <==> exists|i: int|
            0 <= i < rules.len() && glob_matches(
                (#[trigger] rules[i]).0,
                rules[i].1,
                rules[i].2,
                folded(path, rules[i].1),
            ),
        portable_rule_matches(rules, path) <==> exists|i: int|
            0 <= i < rules.len() && portable((#[trigger] rules[i]).0) && glob_matches(
                rules[i].0,
                rules[i].1,
                rules[i].2,
                folded(path, rules[i].1),
            ),
        portable_rules(rules) <==> forall|i: int|
            0 <= i < rules.len() ==> portable((#[trigger] rules[i]).0),
        all_portable(rules, path) <==> portable_rules(rules) && portable(path),
{
    assert forall|i: int| 0 <= i < rules.len() implies rules.contains(
        ((#[trigger] rules[i]).0, rules[i].1, rules[i].2),
    ) by {
        assert(rules[i] == (rules[i].0, rules[i].1, rules[i].2));
    }
    if some_rule_matches(rules, path) {
        let (p, ci, ls) = choose|p: Seq<char>, ci: bool, ls: bool|
            rules.contains((p, ci, ls)) && #[trigger] glob_matches(p, ci, ls, folded(path, ci));
        let i = choose|i: int| 0 <= i < rules.len() && rules[i] == (p, ci, ls);
        assert(glob_matches(rules[i].0, rules[i].1, rules[i].2, folded(path, rules[i].1)));
    }
    if portable_rule_matches(rules, path) {
        let (p, ci, ls) = choose|p: Seq<char>, ci: bool, ls: bool|
            rules.contains((p, ci, ls)) && portable(p) && #[trigger] glob_matches(
                p,
                ci,
                ls,
                folded(path, ci),
            );
        let i = choose|i: int| 0 <= i < rules.len() && rules[i] == (p, ci, ls);
        assert(portable(rules[i].0));
        assert(glob_matches(rules[i].0, rules[i].1, rules[i].2, folded(path, rules[i].1)));
    }
    if forall|i: int| 0 <= i < rules.len() ==> portable((#[trigger] rules[i]).0) {
        assert forall|p: Seq<char>, ci: bool, ls: bool| #[trigger]
            rules.contains((p, ci, ls)) implies portable(p) by {
            let i = choose|i: int| 0 <= i < rules.len() && rules[i] == (p, ci, ls);
            assert(portable(rules[i].0));
        }
    }
}

} // verus!
