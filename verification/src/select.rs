//! Which files of an image a list of patterns selects.
//!
//! A pattern is a glob, or the path of a file or of a directory. Only the image
//! can tell which of the two a path is, so the caller resolves it between
//! [`SelectorBuilder::add_pattern`] and [`SelectorBuilder::resolve`].

use globset::{GlobSet, GlobSetBuilder};
use vstd::hash_set::StringHashSet;
use vstd::prelude::*;

use crate::extract::ExtractError;
use crate::globs::{add_glob, nests_too_deep, set_matches};
#[allow(unused_imports)]
use crate::globs::{
    all_portable, builder_rules, folded, glob_complaint, glob_matches, is_too_deep, portable,
    portable_rule_matches, portable_rules, set_rules, slashed, some_rule_matches,
};
use crate::text::{chars_of, starts_with, trimmed, uppercased};
#[allow(unused_imports)]
use crate::text::{
    copies, law_trimming_undoes_padding, texts, trim, trim_end, upper,
};

verus! {

/// What a selection goes by.
pub struct Rules {
    /// Paths of single files, in upper case.
    pub literals: Set<Seq<char>>,
    /// Paths of directories in upper case, each with its closing slash.
    pub prefixes: Seq<Seq<char>>,
    /// Globs: the pattern, whether case is ignored, whether `/` is special.
    pub globs: Seq<(Seq<char>, bool, bool)>,
}

impl Rules {
    /// The rules before any pattern is added.
    pub open spec fn empty() -> Rules {
        Rules { literals: Set::empty(), prefixes: Seq::empty(), globs: Seq::empty() }
    }

    /// The path is a file that was named, or lies below a directory that was.
    pub open spec fn names(self, path: Seq<char>) -> bool {
        ||| self.literals.contains(upper(path))
        ||| exists|i: int|
            0 <= i < self.prefixes.len() && #[trigger] self.prefixes[i].is_prefix_of(upper(path))
    }

    /// The path is selected.
    pub open spec fn selects(self, path: Seq<char>) -> bool {
        self.names(path) || some_rule_matches(self.globs, path)
    }

    /// The selection may answer `hit` for the path. A path that is named is taken. Beyond
    /// that, the globs without a backslash decide on the path as it is or on the path with
    /// slashes in place of backslashes; a glob with a backslash may take any path.
    pub open spec fn may_answer(self, path: Seq<char>, hit: bool) -> bool {
        let as_is = portable_rule_matches(self.globs, path);
        let with_slashes = portable_rule_matches(self.globs, slashed(path));
        &&& self.names(path) || (as_is && with_slashes) ==> hit
        &&& hit ==> self.names(path) || as_is || with_slashes || !portable_rules(self.globs)
    }

    /// Every glob ignores letter case.
    pub open spec fn ignores_case(self) -> bool {
        forall|i: int| 0 <= i < self.globs.len() ==> #[trigger] self.globs[i].1
    }

    /// The rules with one more file.
    pub open spec fn with_file(self, path: Seq<char>) -> Rules {
        Rules { literals: self.literals.insert(upper(path)), ..self }
    }

    /// The rules with one more directory.
    pub open spec fn with_directory(self, path: Seq<char>) -> Rules {
        Rules { prefixes: self.prefixes.push(upper(path).push('/')), ..self }
    }

    /// The rules with one more glob: case is ignored, and `*` and `?` match `/`.
    pub open spec fn with_glob(self, pattern: Seq<char>) -> Rules {
        Rules { globs: self.globs.push((pattern, true, false)), ..self }
    }

    /// The rules after a path pattern, given what it stands for in the image.
    pub open spec fn with_resolved(self, raw: Seq<char>, target: Target) -> Rules {
        match target {
            Target::Directory => self.with_directory(trim(raw, '/')),
            Target::File => self.with_file(trim(raw, '/')),
            Target::Missing => if raw.len() > 0 && raw.last() == '/' {
                self.with_directory(trim(raw, '/'))
            } else {
                self
            },
        }
    }

    /// The rules with one more pattern, in an image that holds under each path what
    /// `image` tells.
    pub open spec fn with_pattern(
        self,
        raw: Seq<char>,
        image: spec_fn(Seq<char>) -> Target,
    ) -> Rules {
        let pattern = trim(raw, '/');
        if pattern.len() == 0 {
            self
        } else if has_wildcard(pattern) {
            self.with_glob(pattern)
        } else {
            self.with_resolved(raw, image(pattern))
        }
    }
}

/// The rules that a list of patterns makes.
pub open spec fn rules_of(
    patterns: Seq<Seq<char>>,
    image: spec_fn(Seq<char>) -> Target,
) -> Rules
    decreases patterns.len(),
{
    if patterns.len() == 0 {
        Rules::empty()
    } else {
        rules_of(patterns.drop_last(), image).with_pattern(patterns.last(), image)
    }
}

/// The pattern selects the path by itself.
pub open spec fn pattern_selects(
    raw: Seq<char>,
    image: spec_fn(Seq<char>) -> Target,
    path: Seq<char>,
) -> bool {
    Rules::empty().with_pattern(raw, image).selects(path)
}

/// What a path stands for in the image.
#[derive(Clone, Copy, Debug, PartialEq, Eq, Structural)]
pub enum Target {
    Directory,
    File,
    Missing,
}

/// How a pattern is taken.
pub enum Pattern {
    /// Nothing but slashes: the pattern is passed over.
    Blank,
    /// A glob.
    Glob(String),
    /// The path of a file or a directory.
    Path(String),
}

/// `c` makes a pattern a glob.
pub open spec fn is_wildcard(c: char) -> bool {
    c == '*' || c == '?' || c == '[' || c == ']'
}

/// Some character of the pattern makes it a glob.
pub open spec fn has_wildcard(s: Seq<char>) -> bool {
    exists|i: int| 0 <= i < s.len() && is_wildcard(#[trigger] s[i])
}

/// Sorts a pattern out. Slashes at its ends do not count.
pub fn classify(raw: &str) -> (r: Pattern)
    ensures
        match r {
            Pattern::Blank => trim(raw@, '/').len() == 0,
            Pattern::Glob(p) => p@ == trim(raw@, '/') && p@.len() > 0 && has_wildcard(p@),
            Pattern::Path(p) => p@ == trim(raw@, '/') && p@.len() > 0 && !has_wildcard(p@),
        },
        r matches Pattern::Glob(p) ==> p@.contains('*') || p@.contains('?') || p@.contains('[')
            || p@.contains(']'),
        r matches Pattern::Path(p) ==> !p@.contains('*') && !p@.contains('?') && !p@.contains('[')
            && !p@.contains(']'),
        r is Blank <==> forall|i: int| 0 <= i < raw@.len() ==> #[trigger] raw@[i] == '/',
{
    proof {
        law_wildcards_make_globs(trim(raw@, '/'));
        lemma_blank_patterns(raw@);
    }
    let pattern: String = trimmed(raw, '/');
    let chars: Vec<char> = chars_of(pattern.as_str());
    if chars.len() == 0 {
        return Pattern::Blank;
    }
    let mut i: usize = 0;
    while i < chars.len()
        invariant
            chars@ == pattern@,
            pattern@ == trim(raw@, '/'),
            chars@.len() > 0,
            i <= chars@.len(),
            forall|j: int| 0 <= j < i ==> !is_wildcard(#[trigger] chars@[j]),
        decreases chars@.len() - i,
    {
        let c: char = chars[i];
        if c == '*' || c == '?' || c == '[' || c == ']' {
            proof {
                assert(is_wildcard(pattern@[i as int]));
                law_wildcards_make_globs(trim(raw@, '/'));
                lemma_blank_patterns(raw@);
            }
            return Pattern::Glob(pattern);
        }
        i += 1;
    }
    Pattern::Path(pattern)
}

/// The directory that a path names, in upper case and with its closing slash.
fn directory_prefix(path: &str) -> (r: String)
    ensures
        r@ == upper(path@).push('/'),
{
    let mut prefix: String = uppercased(path);
    prefix.push('/');
    prefix
}

/// A selection in the making.
pub struct SelectorBuilder {
    literals: StringHashSet,
    prefixes: Vec<String>,
    globs: GlobSetBuilder,
}

impl View for SelectorBuilder {
    type V = Rules;

    closed spec fn view(&self) -> Rules {
        Rules {
            literals: self.literals@,
            prefixes: texts(self.prefixes@),
            globs: builder_rules(self.globs),
        }
    }
}

impl SelectorBuilder {
    /// A selection without patterns.
    pub fn new() -> (r: SelectorBuilder)
        ensures
            r@ == Rules::empty(),
    {
        let r: SelectorBuilder = SelectorBuilder {
            literals: StringHashSet::new(),
            prefixes: Vec::new(),
            globs: GlobSetBuilder::new(),
        };
        assert(texts(r.prefixes@) == Seq::<Seq<char>>::empty());
        r
    }

    /// Takes in one pattern. Where it is a path, the path comes back: the caller
    /// looks it up in the image and reports to [`SelectorBuilder::resolve`]. A glob with
    /// too many braces within each other would not compile and is refused at once.
    pub fn add_pattern(&mut self, raw: &str) -> (r: Result<Option<String>, ExtractError>)
        ensures
            trim(raw@, '/').len() == 0 ==> r == Ok::<Option<String>, ExtractError>(None)
                && final(self)@ == old(self)@,
            trim(raw@, '/').len() > 0 && !has_wildcard(trim(raw@, '/')) ==> {
                &&& r matches Ok(Some(path))
                &&& path@ == trim(raw@, '/')
                &&& final(self)@ == old(self)@
            },
            r matches Ok(None) ==> forall|image: spec_fn(Seq<char>) -> Target|
                final(self)@ == #[trigger] old(self)@.with_pattern(raw@, image),
            r matches Ok(Some(path)) ==> forall|image: spec_fn(Seq<char>) -> Target|
                #[trigger] old(self)@.with_pattern(raw@, image) == old(self)@.with_resolved(
                    raw@,
                    image(path@),
                ),
            trim(raw@, '/').len() > 0 && has_wildcard(trim(raw@, '/')) && is_too_deep(
                trim(raw@, '/'),
            ) ==> r == Err::<Option<String>, ExtractError>(ExtractError::GlobSetFailed)
                && final(self)@ == old(self)@,
            trim(raw@, '/').len() > 0 && has_wildcard(trim(raw@, '/')) && !is_too_deep(
                trim(raw@, '/'),
            ) ==> match r {
                Ok(None) => final(self)@ == old(self)@.with_glob(trim(raw@, '/')),
                Ok(Some(_)) => false,
                Err(e) => {
                    &&& e matches ExtractError::InvalidGlob { pattern, reason }
                    &&& pattern@ == trim(raw@, '/')
                    &&& final(self)@ == old(self)@
                },
            },
            trim(raw@, '/').len() > 0 && has_wildcard(trim(raw@, '/')) && !is_too_deep(
                trim(raw@, '/'),
            ) && portable(trim(raw@, '/')) ==> match r {
                Ok(_) => glob_complaint(trim(raw@, '/')) is None,
                Err(e) => {
                    &&& e matches ExtractError::InvalidGlob { pattern, reason }
                    &&& glob_complaint(trim(raw@, '/')) == Some(reason@)
                },
            },
    {
        match classify(raw) {
            Pattern::Blank => Ok(None),
            Pattern::Path(path) => Ok(Some(path)),
            Pattern::Glob(pattern) => {
                if nests_too_deep(pattern.as_str()) {
                    return Err(ExtractError::GlobSetFailed);
                }
                match add_glob(&mut self.globs, pattern.as_str(), true, false) {
                    Ok(_) => Ok(None),
                    Err(reason) => Err(ExtractError::InvalidGlob { pattern, reason }),
                }
            },
        }
    }

    /// Takes in what the image holds under a path pattern. A path that it does not
    /// hold counts only where the pattern ends in a slash.
    pub fn resolve(&mut self, raw: &str, target: Target)
        ensures
            final(self)@ == old(self)@.with_resolved(raw@, target),
    {
        let path: String = trimmed(raw, '/');
        match target {
            Target::File => {
                let literal: String = uppercased(path.as_str());
                self.literals.insert(literal);
            },
            Target::Directory => {
                let prefix: String = directory_prefix(path.as_str());
                self.prefixes.push(prefix);
                assert(texts(self.prefixes@) == texts(old(self).prefixes@).push(prefix@));
            },
            Target::Missing => {
                let chars: Vec<char> = chars_of(raw);
                if chars.len() > 0 && chars[chars.len() - 1] == '/' {
                    let prefix: String = directory_prefix(path.as_str());
                    self.prefixes.push(prefix);
                    assert(texts(self.prefixes@) == texts(old(self).prefixes@).push(prefix@));
                }
            },
        }
    }

    /// Completes the selection with the compiled globs, or reports that they did
    /// not compile.
    pub fn with_compiled(self, compiled: Result<GlobSet, globset::Error>) -> (r: Result<
        Selector,
        ExtractError,
    >)
        ensures
            match compiled {
                Ok(set) => {
                    &&& r matches Ok(selector)
                    &&& selector@ == (Rules { globs: set_rules(set), ..self@ })
                },
                Err(_) => r == Err::<Selector, ExtractError>(ExtractError::GlobSetFailed),
            },
    {
        match compiled {
            Ok(set) => Ok(
                Selector { literals: self.literals, prefixes: self.prefixes, globs: set },
            ),
            Err(_) => Err(ExtractError::GlobSetFailed),
        }
    }

    /// Completes the selection. Without globs that always succeeds; whether globs
    /// compile together is for the glob compiler to say.
    pub fn finish(self) -> (r: Result<Selector, ExtractError>)
        ensures
            match r {
                Ok(selector) => selector@ == self@,
                Err(e) => e == ExtractError::GlobSetFailed,
            },
            self@.globs.len() == 0 ==> r is Ok,
    {
        let compiled: Result<GlobSet, globset::Error> = self.globs.build();
        self.with_compiled(compiled)
    }
}

/// A selection, ready to be asked.
pub struct Selector {
    literals: StringHashSet,
    prefixes: Vec<String>,
    globs: GlobSet,
}

impl View for Selector {
    type V = Rules;

    closed spec fn view(&self) -> Rules {
        Rules {
            literals: self.literals@,
            prefixes: texts(self.prefixes@),
            globs: set_rules(self.globs),
        }
    }
}

impl Selector {
    /// Tells whether the path is a file that was named, or lies below a directory
    /// that was. ASCII letter case does not count.
    pub fn names(&self, path: &str) -> (r: bool)
        ensures
            r == self@.names(path@),
    {
        let key: String = uppercased(path);
        if self.literals.contains(key.as_str()) {
            return true;
        }
        let mut i: usize = 0;
        while i < self.prefixes.len()
            invariant
                key@ == upper(path@),
                !self@.literals.contains(key@),
                i <= self.prefixes@.len(),
                forall|j: int|
                    0 <= j < i ==> !#[trigger] self@.prefixes[j].is_prefix_of(upper(path@)),
            decreases self.prefixes@.len() - i,
        {
            if starts_with(key.as_str(), self.prefixes[i].as_str()) {
                assert(self@.prefixes[i as int].is_prefix_of(upper(path@)));
                return true;
            }
            i += 1;
        }
        false
    }

    /// Tells whether a path is selected, given whether a glob matches it.
    pub fn selects_with(&self, path: &str, glob_hit: bool) -> (r: bool)
        ensures
            r == (self@.names(path@) || glob_hit),
    {
        self.names(path) || glob_hit
    }

    /// Tells whether a path is selected. Where the path or a glob holds a
    /// backslash, what the glob says depends on the platform.
    pub fn matches(&self, path: &str) -> (r: bool)
        ensures
            self@.may_answer(path@, r),
            all_portable(self@.globs, path@) ==> r == self@.selects(path@),
            self@.globs.len() == 0 ==> r == self@.names(path@),
            self@.names(path@) ==> r,
    {
        let hit: bool = set_matches(&self.globs, path);
        let r: bool = self.selects_with(path, hit);
        proof {
            assert(self@.may_answer(path@, r));
            if all_portable(self@.globs, path@) {
                law_portable_answers_are_exact(self@, path@, r);
            }
        }
        r
    }
}

/// Without backslashes the selection has one answer: whether it selects the path.
pub proof fn law_portable_answers_are_exact(rules: Rules, path: Seq<char>, hit: bool)
    requires
        all_portable(rules.globs, path),
    ensures
        rules.may_answer(path, hit) == (hit == rules.selects(path)),
{
    assert(slashed(path) =~= path) by {
        assert forall|i: int| 0 <= i < path.len() implies path[i] != '\\' by {
            assert(path.contains(path[i]));
        }
    }
    assert forall|p: Seq<char>, ci: bool, ls: bool| #[trigger]
        rules.globs.contains((p, ci, ls)) implies portable(p) by {
        let i = choose|i: int| 0 <= i < rules.globs.len() && rules.globs[i] == (p, ci, ls);
        assert(portable(rules.globs[i].0));
    }
    assert(portable_rule_matches(rules.globs, path) == some_rule_matches(rules.globs, path));
}

/// Naming a path ignores ASCII letter case: two paths that differ in nothing else
/// are both named or both not.
pub proof fn law_naming_ignores_case(rules: Rules, p: Seq<char>, q: Seq<char>)
    requires
        upper(p) == upper(q),
    ensures
        rules.names(p) == rules.names(q),
{
}

/// Rules that come of patterns ignore letter case: there are none to begin with, and
/// no pattern, whatever it stands for, brings one that does not.
pub proof fn law_patterns_ignore_case(
    rules: Rules,
    raw: Seq<char>,
    target: Target,
    pattern: Seq<char>,
)
    ensures
        Rules::empty().ignores_case(),
        rules.ignores_case() ==> rules.with_resolved(raw, target).ignores_case(),
        rules.ignores_case() ==> rules.with_glob(pattern).ignores_case(),
{
}

/// A selection that ignores letter case takes both or neither of two paths that
/// differ in nothing but the case of ASCII letters.
pub proof fn law_selection_ignores_case(rules: Rules, p: Seq<char>, q: Seq<char>)
    requires
        rules.ignores_case(),
        upper(p) == upper(q),
    ensures
        rules.selects(p) == rules.selects(q),
{
    assert forall|g: Seq<char>, ci: bool, ls: bool|
        rules.globs.contains((g, ci, ls)) implies #[trigger] glob_matches(g, ci, ls, folded(p, ci))
        == glob_matches(g, ci, ls, folded(q, ci)) by {
        let i = choose|i: int| 0 <= i < rules.globs.len() && rules.globs[i] == (g, ci, ls);
        assert(rules.globs[i].1);
    }
    if some_rule_matches(rules.globs, q) {
        let (g, ci, ls) = choose|g: Seq<char>, ci: bool, ls: bool|
            rules.globs.contains((g, ci, ls)) && #[trigger] glob_matches(
                g,
                ci,
                ls,
                folded(q, ci),
            );
        assert(glob_matches(g, ci, ls, folded(p, ci)));
    }
    if some_rule_matches(rules.globs, p) {
        let (g, ci, ls) = choose|g: Seq<char>, ci: bool, ls: bool|
            rules.globs.contains((g, ci, ls)) && #[trigger] glob_matches(
                g,
                ci,
                ls,
                folded(p, ci),
            );
        assert(glob_matches(g, ci, ls, folded(q, ci)));
    }
}

/// A file that was named is selected, in whatever case.
pub proof fn law_named_file_is_selected(rules: Rules, file: Seq<char>, path: Seq<char>)
    requires
        upper(path) == upper(file),
    ensures
        rules.with_file(file).selects(path),
{
}

/// Everything below a directory that was named is selected, however deep.
pub proof fn law_directory_is_taken_whole(
    rules: Rules,
    directory: Seq<char>,
    path: Seq<char>,
    rest: Seq<char>,
)
    requires
        upper(path) == upper(directory) + seq!['/'] + rest,
    ensures
        rules.with_directory(directory).selects(path),
{
    let taken = rules.with_directory(directory);
    let i = rules.prefixes.len() as int;
    assert(taken.prefixes[i] == upper(directory) + seq!['/']);
    assert(taken.prefixes[i].is_prefix_of(upper(path)));
}

/// A directory that was named does not bring in files beside it: only the
/// directory's own prefix is added to what was named before.
pub proof fn law_directory_adds_only_its_own(
    rules: Rules,
    directory: Seq<char>,
    path: Seq<char>,
)
    ensures
        rules.with_directory(directory).names(path) == (rules.names(path) || upper(
            directory,
        ).push('/').is_prefix_of(upper(path))),
{
    let taken = rules.with_directory(directory);
    let n = rules.prefixes.len() as int;
    if rules.names(path) && !rules.literals.contains(upper(path)) {
        let i = choose|i: int|
            0 <= i < n && #[trigger] rules.prefixes[i].is_prefix_of(upper(path));
        assert(taken.prefixes[i].is_prefix_of(upper(path)));
    }
    if upper(directory).push('/').is_prefix_of(upper(path)) {
        assert(taken.prefixes[n].is_prefix_of(upper(path)));
    }
    if taken.names(path) && !taken.literals.contains(upper(path)) {
        let i = choose|i: int|
            0 <= i < taken.prefixes.len() && #[trigger] taken.prefixes[i].is_prefix_of(
                upper(path),
            );
        if i < n {
            assert(rules.prefixes[i].is_prefix_of(upper(path)));
        }
    }
}

/// One more pattern never deselects a path, whatever the pattern stands for.
pub proof fn law_patterns_only_add(
    rules: Rules,
    raw: Seq<char>,
    target: Target,
    pattern: Seq<char>,
    path: Seq<char>,
)
    requires
        rules.selects(path),
    ensures
        rules.with_resolved(raw, target).selects(path),
        rules.with_glob(pattern).selects(path),
{
    let d = rules.with_directory(trim(raw, '/'));
    let g = rules.with_glob(pattern);
    if rules.names(path) {
        if !rules.literals.contains(upper(path)) {
            let i = choose|i: int|
                0 <= i < rules.prefixes.len() && #[trigger] rules.prefixes[i].is_prefix_of(
                    upper(path),
                );
            assert(d.prefixes[i].is_prefix_of(upper(path)));
            assert(rules.with_file(trim(raw, '/')).prefixes[i].is_prefix_of(upper(path)));
            assert(g.prefixes[i].is_prefix_of(upper(path)));
        }
    } else {
        let (p, ci, ls) = choose|p: Seq<char>, ci: bool, ls: bool|
            rules.globs.contains((p, ci, ls)) && #[trigger] glob_matches(
                p,
                ci,
                ls,
                folded(path, ci),
            );
        let i = choose|i: int| 0 <= i < rules.globs.len() && rules.globs[i] == (p, ci, ls);
        assert(g.globs[i] == (p, ci, ls));
        assert(g.globs.contains((p, ci, ls)));
        assert(glob_matches(p, ci, ls, folded(path, ci)));
    }
}

/// A directory is taken the same with and without a closing slash, and so is a file.
pub proof fn law_closing_slash_makes_no_difference(rules: Rules, raw: Seq<char>, target: Target)
    requires
        target != Target::Missing,
    ensures
        rules.with_resolved(raw.push('/'), target) == rules.with_resolved(raw, target),
{
    lemma_trim_closing_slash(raw);
}

/// A closing slash is trimmed away.
proof fn lemma_trim_closing_slash(s: Seq<char>)
    ensures
        trim(s.push('/'), '/') == trim(s, '/'),
    decreases s.len(),
{
    let t = s.push('/');
    if s.len() > 0 && s[0] == '/' {
        assert(t.drop_first() == s.drop_first().push('/'));
        lemma_trim_closing_slash(s.drop_first());
    } else if s.len() > 0 {
        assert(t.drop_last() == s);
    } else {
        assert(t.drop_first() == s);
    }
}

/// A path that the image does not hold, written without a closing slash, changes
/// nothing: the other patterns stand.
pub proof fn law_missing_path_is_ignored(rules: Rules, raw: Seq<char>)
    requires
        raw.len() == 0 || raw.last() != '/',
    ensures
        rules.with_resolved(raw, Target::Missing) == rules,
{
}

/// One more pattern adds what it selects by itself, and nothing else.
pub proof fn law_a_pattern_adds_its_own(
    rules: Rules,
    raw: Seq<char>,
    image: spec_fn(Seq<char>) -> Target,
    path: Seq<char>,
)
    ensures
        rules.with_pattern(raw, image).selects(path) == (rules.selects(path) || pattern_selects(
            raw,
            image,
            path,
        )),
{
    let pattern = trim(raw, '/');
    let none = Rules::empty();
    law_directory_adds_only_its_own(rules, pattern, path);
    law_directory_adds_only_its_own(none, pattern, path);
    assert(!none.selects(path));
    if pattern.len() == 0 {
    } else if has_wildcard(pattern) {
        lemma_one_more_glob(rules.globs, pattern, path);
        lemma_one_more_glob(none.globs, pattern, path);
        lemma_globs_name_nothing(rules, pattern, path);
        lemma_globs_name_nothing(none, pattern, path);
    } else {
        lemma_one_more_file(rules, pattern, path);
        lemma_one_more_file(none, pattern, path);
    }
}

/// One more glob names no path.
proof fn lemma_globs_name_nothing(rules: Rules, pattern: Seq<char>, path: Seq<char>)
    ensures
        rules.with_glob(pattern).names(path) == rules.names(path),
{
    assert(rules.with_glob(pattern).prefixes == rules.prefixes);
}

/// One more file adds its own path, and nothing else.
proof fn lemma_one_more_file(rules: Rules, file: Seq<char>, path: Seq<char>)
    ensures
        rules.with_file(file).names(path) == (rules.names(path) || upper(path) == upper(file)),
{
    let taken = rules.with_file(file);
    assert(taken.prefixes == rules.prefixes);
}

/// One more glob matches what it matches by itself, and nothing else.
proof fn lemma_one_more_glob(
    globs: Seq<(Seq<char>, bool, bool)>,
    pattern: Seq<char>,
    path: Seq<char>,
)
    ensures
        some_rule_matches(globs.push((pattern, true, false)), path) == (some_rule_matches(
            globs,
            path,
        ) || glob_matches(pattern, true, false, folded(path, true))),
{
    let more = globs.push((pattern, true, false));
    assert(more[globs.len() as int] == (pattern, true, false));
    assert(more.contains((pattern, true, false)));
    assert forall|rule: (Seq<char>, bool, bool)| #[trigger] more.contains(rule) implies
        globs.contains(rule) || rule == (pattern, true, false) by {
        let i = choose|i: int| 0 <= i < more.len() && more[i] == rule;
        if i < globs.len() {
            assert(globs[i] == rule);
        }
    }
    if some_rule_matches(globs, path) {
        let (p, ci, ls) = choose|p: Seq<char>, ci: bool, ls: bool|
            globs.contains((p, ci, ls)) && #[trigger] glob_matches(p, ci, ls, folded(path, ci));
        let i = choose|i: int| 0 <= i < globs.len() && globs[i] == (p, ci, ls);
        assert(more[i] == (p, ci, ls));
        assert(more.contains((p, ci, ls)));
        assert(glob_matches(p, ci, ls, folded(path, ci)));
    }
}

/// A list of patterns selects exactly what some pattern of it selects by itself.
pub proof fn law_selection_is_the_union(
    patterns: Seq<Seq<char>>,
    image: spec_fn(Seq<char>) -> Target,
    path: Seq<char>,
)
    ensures
        rules_of(patterns, image).selects(path) == exists|raw: Seq<char>|
            patterns.contains(raw) && #[trigger] pattern_selects(raw, image, path),
    decreases patterns.len(),
{
    if patterns.len() > 0 {
        let front = patterns.drop_last();
        let last = patterns.last();
        law_selection_is_the_union(front, image, path);
        law_a_pattern_adds_its_own(rules_of(front, image), last, image, path);
        lemma_members_of_list(patterns);
    } else {
        assert(!some_rule_matches(Rules::empty().globs, path));
    }
}

/// The pattern names the path by itself.
spec fn pattern_names(
    raw: Seq<char>,
    image: spec_fn(Seq<char>) -> Target,
    path: Seq<char>,
) -> bool {
    Rules::empty().with_pattern(raw, image).names(path)
}

/// A list names exactly what some pattern of it names by itself.
proof fn lemma_names_of_list(
    patterns: Seq<Seq<char>>,
    image: spec_fn(Seq<char>) -> Target,
    path: Seq<char>,
)
    ensures
        rules_of(patterns, image).names(path) == exists|raw: Seq<char>|
            patterns.contains(raw) && #[trigger] pattern_names(raw, image, path),
    decreases patterns.len(),
{
    let none = Rules::empty();
    assert(!none.names(path));
    if patterns.len() > 0 {
        let front = patterns.drop_last();
        let last = patterns.last();
        let before = rules_of(front, image);
        let pattern = trim(last, '/');
        lemma_names_of_list(front, image, path);
        law_directory_adds_only_its_own(before, pattern, path);
        law_directory_adds_only_its_own(none, pattern, path);
        lemma_globs_name_nothing(before, pattern, path);
        lemma_globs_name_nothing(none, pattern, path);
        lemma_one_more_file(before, pattern, path);
        lemma_one_more_file(none, pattern, path);
        assert(rules_of(patterns, image).names(path) == (before.names(path) || pattern_names(
            last,
            image,
            path,
        )));
        lemma_members_of_list(patterns);
    }
}

/// What a list holds is what its front holds, and its last pattern.
proof fn lemma_members_of_list(patterns: Seq<Seq<char>>)
    requires
        patterns.len() > 0,
    ensures
        patterns.contains(patterns.last()),
        forall|raw: Seq<char>| #[trigger]
            patterns.contains(raw) == (patterns.drop_last().contains(raw) || raw
                == patterns.last()),
{
    let front = patterns.drop_last();
    assert(patterns[patterns.len() - 1] == patterns.last());
    assert forall|raw: Seq<char>| #[trigger] patterns.contains(raw) == (front.contains(raw) || raw
        == patterns.last()) by {
        if front.contains(raw) {
            let i = choose|i: int| 0 <= i < front.len() && front[i] == raw;
            assert(patterns[i] == raw);
        }
        if patterns.contains(raw) {
            let i = choose|i: int| 0 <= i < patterns.len() && patterns[i] == raw;
            if i < front.len() {
                assert(front[i] == raw);
            }
        }
    }
}

/// The globs of a list are those of its patterns.
proof fn lemma_globs_of_list(
    patterns: Seq<Seq<char>>,
    image: spec_fn(Seq<char>) -> Target,
    rule: (Seq<char>, bool, bool),
)
    ensures
        rules_of(patterns, image).globs.contains(rule) == exists|raw: Seq<char>|
            patterns.contains(raw) && #[trigger] makes_glob(raw, rule),
    decreases patterns.len(),
{
    if patterns.len() > 0 {
        let front = patterns.drop_last();
        let last = patterns.last();
        lemma_globs_of_list(front, image, rule);
        let before = rules_of(front, image).globs;
        let after = rules_of(patterns, image).globs;
        if trim(last, '/').len() > 0 && has_wildcard(trim(last, '/')) {
            let added = (trim(last, '/'), true, false);
            assert(after == before.push(added));
            assert(after[before.len() as int] == added);
            if before.contains(rule) {
                let i = choose|i: int| 0 <= i < before.len() && before[i] == rule;
                assert(after[i] == rule);
            }
            if after.contains(rule) && rule != added {
                let i = choose|i: int| 0 <= i < after.len() && after[i] == rule;
                assert(before[i] == rule);
            }
        } else {
            assert(after == before);
        }
        assert(after.contains(rule) == (before.contains(rule) || makes_glob(last, rule)));
        lemma_members_of_list(patterns);
    }
}

/// The pattern is a glob, and this is its rule.
spec fn makes_glob(raw: Seq<char>, rule: (Seq<char>, bool, bool)) -> bool {
    &&& trim(raw, '/').len() > 0
    &&& has_wildcard(trim(raw, '/'))
    &&& rule == (trim(raw, '/'), true, false)
}

/// The order of the patterns and how often one is repeated make no difference: two lists
/// of the same patterns select the same paths, and have the same answers for every path.
pub proof fn law_order_and_repetition_make_no_difference(
    p: Seq<Seq<char>>,
    q: Seq<Seq<char>>,
    image: spec_fn(Seq<char>) -> Target,
    path: Seq<char>,
)
    requires
        forall|raw: Seq<char>| #[trigger] p.contains(raw) == q.contains(raw),
    ensures
        rules_of(p, image).selects(path) == rules_of(q, image).selects(path),
        forall|hit: bool| #[trigger]
            rules_of(p, image).may_answer(path, hit) == rules_of(q, image).may_answer(path, hit),
{
    law_selection_is_the_union(p, image, path);
    law_selection_is_the_union(q, image, path);
    lemma_names_of_list(p, image, path);
    lemma_names_of_list(q, image, path);
    let (a, b) = (rules_of(p, image).globs, rules_of(q, image).globs);
    assert forall|g: Seq<char>, ci: bool, ls: bool| #[trigger] a.contains((g, ci, ls))
        == b.contains((g, ci, ls)) by {
        lemma_globs_of_list(p, image, (g, ci, ls));
        lemma_globs_of_list(q, image, (g, ci, ls));
    }
    lemma_same_globs(a, b, path);
    lemma_same_globs(a, b, slashed(path));
}

/// Two lists of the same globs match the same paths.
proof fn lemma_same_globs(
    a: Seq<(Seq<char>, bool, bool)>,
    b: Seq<(Seq<char>, bool, bool)>,
    path: Seq<char>,
)
    requires
        forall|g: Seq<char>, ci: bool, ls: bool| #[trigger]
            a.contains((g, ci, ls)) == b.contains((g, ci, ls)),
    ensures
        portable_rules(a) == portable_rules(b),
        portable_rule_matches(a, path) == portable_rule_matches(b, path),
{
    if portable_rules(a) {
        assert forall|g: Seq<char>, ci: bool, ls: bool| #[trigger]
            b.contains((g, ci, ls)) implies portable(g) by {
            assert(a.contains((g, ci, ls)));
        }
    }
    if portable_rules(b) {
        assert forall|g: Seq<char>, ci: bool, ls: bool| #[trigger]
            a.contains((g, ci, ls)) implies portable(g) by {
            assert(b.contains((g, ci, ls)));
        }
    }
}

/// What a pattern selects by itself: a glob what it matches, whatever the case of the
/// path; the path of a file that file; the path of a directory, or a missing one with a
/// closing slash, everything below it.
pub proof fn law_what_a_pattern_selects(
    raw: Seq<char>,
    image: spec_fn(Seq<char>) -> Target,
    path: Seq<char>,
)
    ensures
        pattern_selects(raw, image, path) == ({
            let pattern = trim(raw, '/');
            let is_below = upper(pattern).push('/').is_prefix_of(upper(path));
            if pattern.len() == 0 {
                false
            } else if has_wildcard(pattern) {
                glob_matches(pattern, true, false, upper(path))
            } else {
                match image(pattern) {
                    Target::File => upper(path) == upper(pattern),
                    Target::Directory => is_below,
                    Target::Missing => raw.last() == '/' && is_below,
                }
            }
        }),
{
    let pattern = trim(raw, '/');
    let none = Rules::empty();
    assert(!none.selects(path));
    law_directory_adds_only_its_own(none, pattern, path);
    lemma_globs_name_nothing(none, pattern, path);
    lemma_one_more_file(none, pattern, path);
    lemma_one_more_glob(none.globs, pattern, path);
    if raw.len() == 0 {
        assert(pattern.len() == 0);
    }
}

/// Slashes in front of a pattern make no difference: one more changes no rule.
pub proof fn law_leading_slash_makes_no_difference(
    patterns: Seq<Seq<char>>,
    image: spec_fn(Seq<char>) -> Target,
    i: int,
)
    requires
        0 <= i < patterns.len(),
    ensures
        rules_of(patterns.update(i, seq!['/'] + patterns[i]), image) == rules_of(patterns, image),
    decreases patterns.len(),
{
    let raw = patterns[i];
    let slashed = seq!['/'] + raw;
    let changed = patterns.update(i, slashed);
    let front = patterns.drop_last();
    if i < patterns.len() - 1 {
        law_leading_slash_makes_no_difference(front, image, i);
        assert(changed.drop_last() == front.update(i, slashed));
    } else {
        assert(changed.drop_last() == front);
        assert(slashed.drop_first() == raw);
        assert(trim(slashed, '/') == trim(raw, '/'));
        if raw.len() == 0 {
            assert(trim(raw, '/').len() == 0);
        } else {
            assert(slashed.last() == raw.last());
        }
    }
}

/// A pattern is a glob exactly where it contains one of the four wildcards, wherever that
/// stands.
pub proof fn law_wildcards_make_globs(s: Seq<char>)
    ensures
        has_wildcard(s) <==> s.contains('*') || s.contains('?') || s.contains('[') || s.contains(
            ']',
        ),
{
    if has_wildcard(s) {
        let i = choose|i: int| 0 <= i < s.len() && is_wildcard(#[trigger] s[i]);
        assert(s.contains(s[i]));
    }
    assert forall|c: char|
        (c == '*' || c == '?' || c == '[' || c == ']') && #[trigger] s.contains(c) implies
        has_wildcard(s) by {
        let i = choose|i: int| 0 <= i < s.len() && s[i] == c;
        assert(is_wildcard(s[i]));
    }
}

/// Whatever stands in front of a wildcard and behind it, the pattern is a glob.
pub proof fn law_a_wildcard_anywhere_makes_a_glob(front: Seq<char>, c: char, back: Seq<char>)
    requires
        c == '*' || c == '?' || c == '[' || c == ']',
    ensures
        has_wildcard(front.push(c) + back),
{
    let s = front.push(c) + back;
    assert(s[front.len() as int] == c);
    assert(s.contains(c));
    law_wildcards_make_globs(s);
}

/// A glob selects what it matches, ignoring case, with `*` and `?` matching slashes too,
/// wherever its wildcard stands and whatever slashes are put round it.
pub proof fn law_globs_select_what_they_match(
    n: nat,
    front: Seq<char>,
    c: char,
    back: Seq<char>,
    m: nat,
    image: spec_fn(Seq<char>) -> Target,
    path: Seq<char>,
)
    requires
        c == '*' || c == '?' || c == '[' || c == ']',
        front.len() > 0 ==> front[0] != '/',
        back.len() > 0 ==> back.last() != '/',
    ensures
        ({
            let pattern = front.push(c) + back;
            pattern_selects(copies('/', n) + pattern + copies('/', m), image, path) == glob_matches(
                pattern,
                true,
                false,
                upper(path),
            )
        }),
{
    let pattern = front.push(c) + back;
    if front.len() > 0 {
        assert(pattern[0] == front[0]);
    } else {
        assert(pattern[0] == c);
    }
    if back.len() > 0 {
        assert(pattern.last() == back.last());
    } else {
        assert(pattern.last() == c);
    }
    law_trimming_undoes_padding('/', n, pattern, m);
    law_a_wildcard_anywhere_makes_a_glob(front, c, back);
    law_what_a_pattern_selects(copies('/', n) + pattern + copies('/', m), image, path);
}

/// A path without wildcards selects the file of its name, or what lies below the directory
/// of its name, whatever slashes are put round it; a missing one selects something only
/// with a closing slash.
pub proof fn law_paths_select_what_they_name(
    n: nat,
    name: Seq<char>,
    m: nat,
    image: spec_fn(Seq<char>) -> Target,
    path: Seq<char>,
)
    requires
        name.len() > 0,
        name[0] != '/',
        name.last() != '/',
        !name.contains('*'),
        !name.contains('?'),
        !name.contains('['),
        !name.contains(']'),
    ensures
        ({
            let raw = copies('/', n) + name + copies('/', m);
            let below = upper(name).push('/').is_prefix_of(upper(path));
            &&& image(name) == Target::File ==> pattern_selects(raw, image, path) == (upper(path)
                == upper(name))
            &&& image(name) == Target::Directory ==> pattern_selects(raw, image, path) == below
            &&& image(name) == Target::Missing ==> pattern_selects(raw, image, path) == (m > 0
                && below)
        }),
{
    let raw = copies('/', n) + name + copies('/', m);
    law_trimming_undoes_padding('/', n, name, m);
    law_wildcards_make_globs(name);
    law_what_a_pattern_selects(raw, image, path);
    if m == 0 {
        assert(raw.last() == name.last());
    } else {
        assert(raw.last() == '/');
    }
}

/// Nothing but slashes selects nothing.
pub proof fn law_blank_patterns_select_nothing(
    n: nat,
    image: spec_fn(Seq<char>) -> Target,
    path: Seq<char>,
)
    ensures
        !pattern_selects(copies('/', n), image, path),
{
    law_trimming_undoes_padding('/', n, Seq::empty(), 0);
    assert(copies('/', n) + Seq::<char>::empty() + copies('/', 0) =~= copies('/', n));
    law_what_a_pattern_selects(copies('/', n), image, path);
}

/// A pattern is blank exactly where it is made of slashes.
proof fn lemma_blank_patterns(raw: Seq<char>)
    ensures
        trim(raw, '/').len() == 0 <==> forall|i: int|
            0 <= i < raw.len() ==> #[trigger] raw[i] == '/',
    decreases raw.len(),
{
    if raw.len() > 0 && raw[0] == '/' {
        let rest = raw.drop_first();
        lemma_blank_patterns(rest);
        assert(trim(raw, '/') == trim(rest, '/'));
        assert forall|i: int|
            (forall|j: int| 0 <= j < rest.len() ==> #[trigger] rest[j] == '/') && 0 <= i
                < raw.len() implies #[trigger] raw[i] == '/' by {
            if i > 0 {
                assert(rest[i - 1] == raw[i]);
            }
        }
        assert forall|j: int|
            (forall|i: int| 0 <= i < raw.len() ==> #[trigger] raw[i] == '/') && 0 <= j
                < rest.len() implies #[trigger] rest[j] == '/' by {
            assert(raw[j + 1] == rest[j]);
        }
    } else if raw.len() > 0 {
        lemma_trim_end_keeps_a_start(raw);
    }
}

/// A text that starts otherwise is not trimmed away.
proof fn lemma_trim_end_keeps_a_start(s: Seq<char>)
    requires
        s.len() > 0,
        s[0] != '/',
    ensures
        trim_end(s, '/').len() > 0,
    decreases s.len(),
{
    if s.last() == '/' {
        lemma_trim_end_keeps_a_start(s.drop_last());
    }
}

/// A path is named exactly where its upper case is that of a file, or starts with that of a
/// directory; what is named is taken, and whatever else is taken some glob is there for.
pub proof fn law_naming_and_taking(rules: Rules, path: Seq<char>, hit: bool)
    ensures
        rules.names(path) <==> rules.literals.contains(upper(path)) || exists|prefix: Seq<char>|
            rules.prefixes.contains(prefix) && #[trigger] prefix.is_prefix_of(upper(path)),
        rules.may_answer(path, hit) && rules.names(path) ==> hit,
        rules.may_answer(path, hit) && hit && !rules.names(path) ==> rules.globs.len() > 0,
        rules.names(path) ==> rules.selects(path),
{
    if rules.names(path) && !rules.literals.contains(upper(path)) {
        let i = choose|i: int|
            0 <= i < rules.prefixes.len() && #[trigger] rules.prefixes[i].is_prefix_of(
                upper(path),
            );
        assert(rules.prefixes.contains(rules.prefixes[i]));
    }
    assert forall|prefix: Seq<char>|
        rules.prefixes.contains(prefix) && #[trigger] prefix.is_prefix_of(
            upper(path),
        ) implies rules.names(path) by {
        let i = choose|i: int| 0 <= i < rules.prefixes.len() && rules.prefixes[i] == prefix;
        assert(rules.prefixes[i].is_prefix_of(upper(path)));
    }
    if rules.globs.len() == 0 {
        assert(!portable_rule_matches(rules.globs, path));
        assert(!portable_rule_matches(rules.globs, slashed(path)));
        assert(portable_rules(rules.globs));
    }
}

} // verus!
