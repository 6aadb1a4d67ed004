//! What is shown for a database and a theme: the `LS_COLORS` expression, the
//! lines of a preview, and the list of theme names.

use vstd::prelude::*;
use vstd::utf8::encode_utf8;
use crate::error::{viewed, Failure, VividError};
use crate::filetypes::{categories_given, FileTypes};
use crate::sort::{
    is_sorted, lemma_sort_idempotent, lemma_sort_ignores_order, lemma_sort_permutes,
    lemma_sort_sorts, pick, sort, sorted_positions, views, Ranked,
};
use crate::text::{
    clone_strings, join, join_strings, lemma_bytes_le_total, lemma_bytes_le_transitive,
    lemma_segments_le_total, lemma_segments_le_transitive, lemma_shorter_first_antisymmetric,
    lemma_shorter_first_total, lemma_shorter_first_transitive, pattern_precedes, segments_le,
    segments_precede, shorter_first, str_equal, text_le, text_precedes, texts,
};
use crate::theme::{style_for, Theme, ThemeView};
use crate::types::Category;

verus! {

/// A pattern with the style that files matching it are shown in.
#[derive(Debug)]
pub struct Assignment {
    pub pattern: String,
    pub style: String,
}

impl View for Assignment {
    type V = (Seq<char>, Seq<char>);

    open spec fn view(&self) -> (Seq<char>, Seq<char>) {
        (self.pattern@, self.style@)
    }
}

/// Assignments are ranked by their patterns, the shorter first.
impl Ranked for Assignment {
    open spec fn before(a: (Seq<char>, Seq<char>), b: (Seq<char>, Seq<char>)) -> bool {
        shorter_first(a.0, b.0)
    }

    proof fn before_is_total(a: (Seq<char>, Seq<char>), b: (Seq<char>, Seq<char>)) {
        lemma_shorter_first_total(a.0, b.0);
    }

    proof fn before_is_transitive(
        a: (Seq<char>, Seq<char>),
        b: (Seq<char>, Seq<char>),
        c: (Seq<char>, Seq<char>),
    ) {
        lemma_shorter_first_transitive(a.0, b.0, c.0);
    }

    fn stands_before(&self, other: &Self) -> (r: bool) {
        pattern_precedes(self.pattern.as_str(), other.pattern.as_str())
    }
}

/// A pattern of the preview, with its category and the style it is shown in.
#[derive(Debug)]
pub struct Sample {
    pub category: Category,
    pub pattern: String,
    pub style: String,
}

impl View for Sample {
    type V = (Seq<Seq<char>>, Seq<char>, Seq<char>);

    open spec fn view(&self) -> (Seq<Seq<char>>, Seq<char>, Seq<char>) {
        (texts(self.category@), self.pattern@, self.style@)
    }
}

/// Samples are ranked by their categories.
impl Ranked for Sample {
    open spec fn before(
        a: (Seq<Seq<char>>, Seq<char>, Seq<char>),
        b: (Seq<Seq<char>>, Seq<char>, Seq<char>),
    ) -> bool {
        segments_le(a.0, b.0)
    }

    proof fn before_is_total(
        a: (Seq<Seq<char>>, Seq<char>, Seq<char>),
        b: (Seq<Seq<char>>, Seq<char>, Seq<char>),
    ) {
        lemma_segments_le_total(a.0, b.0);
    }

    proof fn before_is_transitive(
        a: (Seq<Seq<char>>, Seq<char>, Seq<char>),
        b: (Seq<Seq<char>>, Seq<char>, Seq<char>),
        c: (Seq<Seq<char>>, Seq<char>, Seq<char>),
    ) {
        lemma_segments_le_transitive(a.0, b.0, c.0);
    }

    fn stands_before(&self, other: &Self) -> (r: bool) {
        segments_precede(self.category.as_slice(), other.category.as_slice())
    }
}

/// Strings are ranked as `str` orders them.
impl Ranked for String {
    open spec fn before(a: Seq<char>, b: Seq<char>) -> bool {
        text_le(a, b)
    }

    proof fn before_is_total(a: Seq<char>, b: Seq<char>) {
        lemma_bytes_le_total(encode_utf8(a), encode_utf8(b));
    }

    proof fn before_is_transitive(a: Seq<char>, b: Seq<char>, c: Seq<char>) {
        lemma_bytes_le_transitive(encode_utf8(a), encode_utf8(b), encode_utf8(c));
    }

    fn stands_before(&self, other: &Self) -> (r: bool) {
        text_precedes(self.as_str(), other.as_str())
    }
}

/// The patterns of a database, each with the style of its category, in the
/// order of the database. The first entry whose style cannot be resolved
/// decides the failure.
pub open spec fn assignments(theme: ThemeView, mapping: Seq<(Seq<char>, Seq<Seq<char>>)>) -> Result<
    Seq<(Seq<char>, Seq<char>)>,
    Failure,
>
    decreases mapping.len(),
{
    if mapping.len() == 0 {
        Ok(Seq::empty())
    } else {
        match assignments(theme, mapping.drop_last()) {
            Err(e) => Err(e),
            Ok(done) => match style_for(theme, mapping.last().1) {
                Ok(style) => Ok(done.push((mapping.last().0, style))),
                Err(e) => Err(e),
            },
        }
    }
}

/// An assignment as it is written in the expression.
pub open spec fn assignment_text(assignment: (Seq<char>, Seq<char>)) -> Seq<char> {
    assignment.0 + "="@ + assignment.1
}

/// The expression for a database and a theme: the assignments sorted by their
/// patterns, the shorter first, and joined with colons.
pub open spec fn ls_colors(theme: ThemeView, mapping: Seq<(Seq<char>, Seq<Seq<char>>)>) -> Result<
    Seq<char>,
    Failure,
> {
    match assignments(theme, mapping) {
        Ok(pairs) => Ok(
            join(
                sort::<Assignment>(pairs).map_values(
                    |pair: (Seq<char>, Seq<char>)| assignment_text(pair),
                ),
                ":"@,
            ),
        ),
        Err(e) => Err(e),
    }
}

/// The sample for an entry of a database: a category without a style is shown
/// in the style `0`.
pub open spec fn sample_of(theme: ThemeView, entry: (Seq<char>, Seq<Seq<char>>)) -> (
    Seq<Seq<char>>,
    Seq<char>,
    Seq<char>,
) {
    (
        entry.1,
        entry.0,
        match style_for(theme, entry.1) {
            Ok(style) => style,
            Err(_) => "0"@,
        },
    )
}

/// The line of a sample: the category, then the pattern between the escape
/// sequence that switches its style on and the one that resets it.
pub open spec fn sample_line(sample: (Seq<Seq<char>>, Seq<char>, Seq<char>)) -> Seq<char> {
    join(sample.0, "."@) + ": \x1b["@ + sample.2 + "m"@ + sample.1 + "\x1b[0m"@
}

/// The lines of the preview: one for each entry of the database, sorted by
/// category, entries of one category in the order of the database.
pub open spec fn preview_lines(theme: ThemeView, mapping: Seq<(Seq<char>, Seq<Seq<char>>)>) -> Seq<
    Seq<char>,
> {
    sort::<Sample>(
        mapping.map_values(|entry: (Seq<char>, Seq<Seq<char>>)| sample_of(theme, entry)),
    ).map_values(|sample: (Seq<Seq<char>>, Seq<char>, Seq<char>)| sample_line(sample))
}

/// Whether a string ends with another.
pub open spec fn ends_with(s: Seq<char>, suffix: Seq<char>) -> bool {
    s.len() >= suffix.len() && s.skip(s.len() - suffix.len()) == suffix
}

/// A string without the suffix at its end, however often it is repeated
/// there.
pub open spec fn trim_end(s: Seq<char>, suffix: Seq<char>) -> Seq<char>
    decreases s.len(),
{
    if suffix.len() > 0 && ends_with(s, suffix) {
        trim_end(s.take(s.len() - suffix.len()), suffix)
    } else {
        s
    }
}

/// A sequence with each run of equal neighbours shortened to one of them.
pub open spec fn dedup(s: Seq<Seq<char>>) -> Seq<Seq<char>>
    decreases s.len(),
{
    if s.len() <= 1 {
        s
    } else if s.last() == s[s.len() - 2] {
        dedup(s.drop_last())
    } else {
        dedup(s.drop_last()).push(s.last())
    }
}

/// The names of the themes that a list of theme files holds: each file's name
/// without `.yml` at its end, sorted, each name once.
pub open spec fn theme_names(files: Seq<Seq<char>>) -> Seq<Seq<char>> {
    dedup(sort::<String>(files.map_values(|file: Seq<char>| trim_end(file, ".yml"@))))
}

/// A failure among the first `n` entries is the failure of the whole
/// database.
proof fn lemma_first_failure(
    theme: ThemeView,
    mapping: Seq<(Seq<char>, Seq<Seq<char>>)>,
    n: int,
)
    requires
        0 <= n <= mapping.len(),
        assignments(theme, mapping.take(n)) is Err,
    ensures
        assignments(theme, mapping) == assignments(theme, mapping.take(n)),
    decreases mapping.len() - n,
{
    if n < mapping.len() {
        assert(mapping.take(n + 1).drop_last() == mapping.take(n));
        lemma_first_failure(theme, mapping, n + 1);
    } else {
        assert(mapping.take(n) == mapping);
    }
}

/// What is left of a shortened sequence ends as the sequence does.
proof fn lemma_dedup_last(s: Seq<Seq<char>>)
    requires
        s.len() > 0,
    ensures
        dedup(s).len() > 0,
        dedup(s).last() == s.last(),
    decreases s.len(),
{
    if s.len() > 1 && s.last() == s[s.len() - 2] {
        lemma_dedup_last(s.drop_last());
    }
}

fn trim_end_matches<'a>(name: &'a str, suffix: &str) -> (trimmed: &'a str)
    ensures
        trimmed@ == trim_end(name@, suffix@),
{
    let m = suffix.unicode_len();
    let mut rest: &'a str = name;
    if m == 0 {
        return rest;
    }
    loop
        invariant
            m == suffix@.len(),
            m > 0,
            trim_end(name@, suffix@) == trim_end(rest@, suffix@),
        decreases rest@.len(),
    {
        let n = rest.unicode_len();
        if n < m {
            return rest;
        }
        if !str_equal(rest.substring_char(n - m, n), suffix) {
            assert(rest@.subrange(n - m, n as int) == rest@.skip(n - m));
            return rest;
        }
        assert(rest@.subrange(n - m, n as int) == rest@.skip(n - m));
        assert(rest@.subrange(0, n - m) == rest@.take(n - m));
        rest = rest.substring_char(0, n - m);
    }
}

/// The `LS_COLORS` expression for a database and a theme.
pub fn generate(filetypes: &FileTypes, theme: &Theme) -> (r: Result<String, VividError>)
    requires
        categories_given(filetypes@),
    ensures
        viewed(r) == ls_colors(theme@, filetypes@),
{
    let ghost mapping = filetypes@;
    let mut pairs: Vec<Assignment> = Vec::new();
    let mut i: usize = 0;
    assert(views(pairs@) == Seq::<(Seq<char>, Seq<char>)>::empty());
    while i < filetypes.mapping.len()
        invariant
            i <= filetypes.mapping@.len(),
            mapping == filetypes@,
            categories_given(mapping),
            assignments(theme@, mapping.take(i as int)) == Ok::<
                Seq<(Seq<char>, Seq<char>)>,
                Failure,
            >(views(pairs@)),
        decreases filetypes.mapping@.len() - i,
    {
        let entry = &filetypes.mapping[i];
        proof {
            assert(mapping.take(i + 1).drop_last() == mapping.take(i as int));
            assert(mapping.take(i + 1).last() == mapping[i as int]);
            assert(mapping[i as int] == (entry.0@, texts(entry.1@)));
        }
        match theme.get_style(entry.1.as_slice()) {
            Ok(style) => {
                let ghost before = pairs@;
                pairs.push(Assignment { pattern: entry.0.clone(), style });
                assert(views(pairs@) == views(before).push((entry.0@, style@)));
            },
            Err(e) => {
                proof {
                    lemma_first_failure(theme@, mapping, i + 1);
                }
                return Err(e);
            },
        }
        i += 1;
    }
    assert(mapping.take(i as int) == mapping);
    let positions = sorted_positions(&pairs);
    let ghost sorted = sort::<Assignment>(views(pairs@));
    let ghost wanted = sorted.map_values(|pair: (Seq<char>, Seq<char>)| assignment_text(pair));
    let mut parts: Vec<String> = Vec::new();
    let mut k: usize = 0;
    assert(texts(parts@) == wanted.take(0));
    while k < positions.len()
        invariant
            k <= positions@.len(),
            positions@.len() == pairs@.len(),
            forall|j: int| 0 <= j < positions@.len() ==> positions@[j] < pairs@.len(),
            sorted == pick(views(pairs@), positions@),
            wanted == sorted.map_values(|pair: (Seq<char>, Seq<char>)| assignment_text(pair)),
            texts(parts@) == wanted.take(k as int),
        decreases positions@.len() - k,
    {
        let pair = &pairs[positions[k]];
        let mut part = pair.pattern.clone();
        part.append("=");
        part.append(pair.style.as_str());
        let ghost before = parts@;
        parts.push(part);
        assert(sorted[k as int] == pair@);
        assert(texts(parts@) == texts(before).push(part@));
        assert(wanted.take(k + 1) == wanted.take(k as int).push(wanted[k as int]));
        k += 1;
    }
    assert(wanted.take(k as int) == wanted);
    Ok(join_strings(parts.as_slice(), ":"))
}

/// The lines of the preview of a theme on a database.
pub fn preview(filetypes: &FileTypes, theme: &Theme) -> (lines: Vec<String>)
    requires
        categories_given(filetypes@),
    ensures
        texts(lines@) == preview_lines(theme@, filetypes@),
{
    let ghost mapping = filetypes@;
    let ghost all = mapping.map_values(
        |entry: (Seq<char>, Seq<Seq<char>>)| sample_of(theme@, entry),
    );
    let mut samples: Vec<Sample> = Vec::new();
    let mut i: usize = 0;
    assert(views(samples@) == all.take(0));
    while i < filetypes.mapping.len()
        invariant
            i <= filetypes.mapping@.len(),
            mapping == filetypes@,
            categories_given(mapping),
            all == mapping.map_values(
                |entry: (Seq<char>, Seq<Seq<char>>)| sample_of(theme@, entry),
            ),
            views(samples@) == all.take(i as int),
        decreases filetypes.mapping@.len() - i,
    {
        let entry = &filetypes.mapping[i];
        assert(mapping[i as int] == (entry.0@, texts(entry.1@)));
        let style = match theme.get_style(entry.1.as_slice()) {
            Ok(style) => style,
            Err(_) => String::from_str("0"),
        };
        let ghost before = samples@;
        let sample = Sample {
            category: clone_strings(entry.1.as_slice()),
            pattern: entry.0.clone(),
            style,
        };
        samples.push(sample);
        assert(views(samples@) == views(before).push(sample@));
        assert(all.take(i + 1) == all.take(i as int).push(all[i as int]));
        i += 1;
    }
    assert(all.take(i as int) == all);
    let positions = sorted_positions(&samples);
    let ghost sorted = sort::<Sample>(all);
    let ghost wanted = sorted.map_values(
        |sample: (Seq<Seq<char>>, Seq<char>, Seq<char>)| sample_line(sample),
    );
    let mut lines: Vec<String> = Vec::new();
    let mut k: usize = 0;
    assert(texts(lines@) == wanted.take(0));
    while k < positions.len()
        invariant
            k <= positions@.len(),
            positions@.len() == samples@.len(),
            forall|j: int| 0 <= j < positions@.len() ==> positions@[j] < samples@.len(),
            sorted == pick(views(samples@), positions@),
            wanted == sorted.map_values(
                |sample: (Seq<Seq<char>>, Seq<char>, Seq<char>)| sample_line(sample),
            ),
            texts(lines@) == wanted.take(k as int),
        decreases positions@.len() - k,
    {
        let sample = &samples[positions[k]];
        let mut line = join_strings(sample.category.as_slice(), ".");
        line.append(": \x1b[");
        line.append(sample.style.as_str());
        line.append("m");
        line.append(sample.pattern.as_str());
        line.append("\x1b[0m");
        let ghost before = lines@;
        lines.push(line);
        assert(sorted[k as int] == sample@);
        assert(texts(lines@) == texts(before).push(line@));
        assert(wanted.take(k + 1) == wanted.take(k as int).push(wanted[k as int]));
        k += 1;
    }
    assert(wanted.take(k as int) == wanted);
    lines
}

/// The names of the themes that a list of theme files holds.
pub fn available_theme_names(files: &[String]) -> (names: Vec<String>)
    ensures
        texts(names@) == theme_names(texts(files@)),
{
    let ghost all = texts(files@).map_values(|file: Seq<char>| trim_end(file, ".yml"@));
    let mut trimmed: Vec<String> = Vec::new();
    let mut i: usize = 0;
    assert(views(trimmed@) == all.take(0));
    while i < files.len()
        invariant
            i <= files@.len(),
            all == texts(files@).map_values(|file: Seq<char>| trim_end(file, ".yml"@)),
            views(trimmed@) == all.take(i as int),
        decreases files@.len() - i,
    {
        let ghost before = trimmed@;
        let name = String::from_str(trim_end_matches(files[i].as_str(), ".yml"));
        trimmed.push(name);
        assert(views(trimmed@) == views(before).push(name@));
        assert(all.take(i + 1) == all.take(i as int).push(all[i as int]));
        i += 1;
    }
    assert(all.take(i as int) == all);
    let positions = sorted_positions(&trimmed);
    let ghost sorted = sort::<String>(all);
    let mut names: Vec<String> = Vec::new();
    let mut k: usize = 0;
    assert(sorted.take(0) == Seq::<Seq<char>>::empty());
    assert(texts(names@) == dedup(sorted.take(0)));
    while k < positions.len()
        invariant
            k <= positions@.len(),
            positions@.len() == trimmed@.len(),
            forall|j: int| 0 <= j < positions@.len() ==> positions@[j] < trimmed@.len(),
            sorted == pick(views(trimmed@), positions@),
            texts(names@) == dedup(sorted.take(k as int)),
        decreases positions@.len() - k,
    {
        let name = &trimmed[positions[k]];
        let ghost upto = sorted.take(k + 1);
        proof {
            assert(sorted[k as int] == name@);
            assert(upto.drop_last() == sorted.take(k as int));
            assert(upto.last() == name@);
            if k > 0 {
                lemma_dedup_last(sorted.take(k as int));
                assert(upto[upto.len() - 2] == sorted.take(k as int).last());
            }
        }
        let repeated = names.len() > 0 && str_equal(
            names[names.len() - 1].as_str(),
            name.as_str(),
        );
        if !repeated {
            let ghost before = names@;
            names.push(name.clone());
            assert(texts(names@) == texts(before).push(name@));
        }
        k += 1;
    }
    assert(sorted.take(k as int) == sorted);
    names
}

/// The assignments of the expression stand in the order of their patterns,
/// each of the database's once, and sorting them again changes nothing.
pub proof fn lemma_expression_is_sorted(
    theme: ThemeView,
    mapping: Seq<(Seq<char>, Seq<Seq<char>>)>,
)
    ensures
        assignments(theme, mapping) matches Ok(pairs) ==> {
            let sorted = sort::<Assignment>(pairs);
            &&& is_sorted::<Assignment>(sorted)
            &&& sorted.to_multiset() == pairs.to_multiset()
            &&& sort::<Assignment>(sorted) == sorted
        },
{
    match assignments(theme, mapping) {
        Ok(pairs) => {
            lemma_sort_sorts::<Assignment>(pairs);
            lemma_sort_permutes::<Assignment>(pairs);
            lemma_sort_idempotent::<Assignment>(pairs);
        },
        Err(_) => {},
    }
}

/// The expression does not depend on the order of the database: two
/// databases whose assignments are the same, in whatever order, and in which
/// no pattern occurs twice, come to one expression.
pub proof fn lemma_expression_ignores_order(
    theme: ThemeView,
    first: Seq<(Seq<char>, Seq<Seq<char>>)>,
    second: Seq<(Seq<char>, Seq<Seq<char>>)>,
)
    requires
        assignments(theme, first) is Ok,
        assignments(theme, second) is Ok,
        assignments(theme, first)->Ok_0.to_multiset() == assignments(
            theme,
            second,
        )->Ok_0.to_multiset(),
        forall|i: int, j: int|
            0 <= i < j < first.len() ==> (#[trigger] first[i]).0 != (#[trigger] first[j]).0,
    ensures
        ls_colors(theme, first) == ls_colors(theme, second),
{
    let a = assignments(theme, first)->Ok_0;
    let b = assignments(theme, second)->Ok_0;
    lemma_assignments_keep_patterns(theme, first);
    assert forall|x: (Seq<char>, Seq<char>), y: (Seq<char>, Seq<char>)|
        a.contains(x) && a.contains(y) && Assignment::before(x, y) && Assignment::before(
            y,
            x,
        ) implies x == y by {
        lemma_shorter_first_antisymmetric(x.0, y.0);
        let i = choose|i: int| 0 <= i < a.len() && a[i] == x;
        let j = choose|j: int| 0 <= j < a.len() && a[j] == y;
        assert(first[i].0 == first[j].0);
    }
    lemma_sort_ignores_order::<Assignment>(a, b);
}

/// The assignments of a database are as many as its entries, each with the
/// pattern of its entry.
proof fn lemma_assignments_keep_patterns(
    theme: ThemeView,
    mapping: Seq<(Seq<char>, Seq<Seq<char>>)>,
)
    ensures
        assignments(theme, mapping) matches Ok(pairs) ==> pairs.len() == mapping.len()
            && forall|i: int| 0 <= i < pairs.len() ==> (#[trigger] pairs[i]).0 == mapping[i].0,
    decreases mapping.len(),
{
    if mapping.len() > 0 {
        lemma_assignments_keep_patterns(theme, mapping.drop_last());
    }
}

} // verus!
