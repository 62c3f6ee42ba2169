use crate::program::Program;
use crate::text::{drop_last_word, push_char, without_last_word};
use fuzzy_matcher::skim::SkimMatcherV2;
use fuzzy_matcher::FuzzyMatcher;
use vstd::prelude::*;

verus! {

/// `a` and `b` are the same character once ASCII letters are read without
/// their case, as `char::eq_ignore_ascii_case` compares them.
pub open spec fn same_ignoring_ascii_case(a: char, b: char) -> bool {
    let (x, y) = (a as u32, b as u32);
    x == y || (0x41 <= x <= 0x5a && x + 32 == y) || (0x41 <= y <= 0x5a && y + 32 == x)
}

/// Every character of `pattern` appears in `name`, in order and not
/// necessarily side by side, with ASCII case ignored. Each pattern character
/// is taken by its first fit, scanning `name` from the left.
pub open spec fn subsequence_ignoring_case(name: Seq<char>, pattern: Seq<char>) -> bool
    decreases name.len(),
{
    if pattern.len() == 0 {
        true
    } else if name.len() == 0 {
        false
    } else if same_ignoring_ascii_case(name[0], pattern[0]) {
        subsequence_ignoring_case(name.drop_first(), pattern.drop_first())
    } else {
        subsequence_ignoring_case(name.drop_first(), pattern)
    }
}

/// Relies on `fuzzy_matcher::skim::SkimMatcherV2::default().ignore_case()` and
/// its `FuzzyMatcher::fuzzy_match`: an empty pattern scores `Some(0)`; any
/// other gets a score exactly when `cheap_matches` (util.rs) finds the
/// pattern's characters in the choice in order, compared with
/// `eq_ignore_ascii_case`, and `None` otherwise.
#[verifier::external_body]
fn fuzzy_score(choice: &str, pattern: &str) -> (r: Option<i64>)
    ensures
        r is Some <==> subsequence_ignoring_case(choice@, pattern@),
{
    SkimMatcherV2::default().ignore_case().fuzzy_match(choice, pattern)
}

/// Whether a program called `name` stays in view under `query`: its name
/// holds the query's characters in order, ignoring ASCII case. The empty
/// query keeps every name.
pub open spec fn name_matches(name: Seq<char>, query: Seq<char>) -> bool {
    subsequence_ignoring_case(name, query)
}

/// The positions, in increasing order, of the programs among the first `n`
/// of `programs` whose names match `query`.
pub open spec fn matching(programs: Seq<Program>, query: Seq<char>, n: nat) -> Seq<usize>
    decreases n,
{
    if n == 0 {
        Seq::empty()
    } else {
        let earlier = matching(programs, query, (n - 1) as nat);
        if name_matches(programs[n - 1].name@, query) {
            earlier.push((n - 1) as usize)
        } else {
            earlier
        }
    }
}

/// Each position that `matching` lists is below `n`, and the list grows
/// strictly.
pub proof fn lemma_matching_bounds(programs: Seq<Program>, query: Seq<char>, n: nat)
    requires
        n <= usize::MAX,
    ensures
        matching(programs, query, n).len() <= n,
        forall|k: int|
            0 <= k < matching(programs, query, n).len() ==> matching(programs, query, n)[k] < n,
        forall|j: int, k: int|
            0 <= j < k < matching(programs, query, n).len() ==> matching(programs, query, n)[j]
                < matching(programs, query, n)[k],
    decreases n,
{
    if n > 0 {
        lemma_matching_bounds(programs, query, (n - 1) as nat);
    }
}

/// The positions of all programs whose names match `query`.
fn matching_indices(programs: &Vec<Program>, query: &String) -> (r: Vec<usize>)
    ensures
        r@ == matching(programs@, query@, programs@.len()),
        programs@.len() <= usize::MAX,
{
    let mut r: Vec<usize> = Vec::new();
    let mut i: usize = 0;
    while i < programs.len()
        invariant
            i <= programs@.len(),
            r@ == matching(programs@, query@, i as nat),
        decreases programs@.len() - i,
    {
        if fuzzy_score(programs[i].name.as_str(), query.as_str()).is_some() {
            r.push(i);
        }
        i += 1;
    }
    r
}


/// The programs of `programs` whose names match `query`, in their original order.
pub open spec fn filtered_view(programs: Seq<Program>, query: Seq<char>) -> Seq<Program> {
    matching(programs, query, programs.len()).map_values(|i: usize| programs[i as int])
}

/// The programs of the first `n` sources, one source after another.
pub open spec fn joined(sources: Seq<Vec<Program>>, n: nat) -> Seq<Program>
    decreases n,
{
    if n == 0 || n > sources.len() {
        Seq::empty()
    } else {
        joined(sources, (n - 1) as nat) + sources[n - 1]@
    }
}

/// A direction in which the selection moves through the filtered programs.
#[derive(PartialEq, Eq, Structural, Clone, Copy, Debug)]
pub enum Dir {
    Up,
    Down,
    Same,
}

/// A selection fits a view of `len` programs: none when the view is empty,
/// a position inside it otherwise.
pub open spec fn selection_ok(selected: Option<usize>, len: nat) -> bool {
    if len == 0 {
        selected is None
    } else {
        selected matches Some(i) && i < len
    }
}

/// Where the selection goes from `selected` on a move in `dir` through a view
/// of `len` programs: down and up wrap around at the ends, `Same` clamps a
/// position that fell past the end to the last one, and an absent selection
/// starts at the top.
pub open spec fn moved(selected: Option<usize>, len: nat, dir: Dir) -> Option<usize> {
    if len == 0 {
        None
    } else {
        match selected {
            None => Some(0usize),
            Some(i) => Some(
                match dir {
                    Dir::Down => if i + 1 >= len { 0usize } else { (i + 1) as usize },
                    Dir::Up => if i == 0 { (len - 1) as usize } else { (i - 1) as usize },
                    Dir::Same => if i >= len { (len - 1) as usize } else { i },
                },
            ),
        }
    }
}

/// The state of one search session: the query typed so far, every candidate
/// program, the positions in `programs` of those that match the query, and
/// the selected position in that filtered list.
pub struct State {
    pub input: String,
    pub programs: Vec<Program>,
    pub filtered: Vec<usize>,
    pub selected: Option<usize>,
}

impl State {
    /// The filtered list is the one the query gives, and the selection fits it.
    pub open spec fn wf(&self) -> bool {
        &&& self.programs@.len() <= usize::MAX
        &&& self.filtered@ == matching(self.programs@, self.input@, self.programs@.len())
        &&& selection_ok(self.selected, self.filtered@.len())
    }

    /// The programs currently in view.
    pub open spec fn view_programs(&self) -> Seq<Program> {
        filtered_view(self.programs@, self.input@)
    }

    /// An empty session: no query, no programs, nothing selected.
    pub fn new() -> (r: Self)
        ensures
            r.wf(),
            r.input@.len() == 0,
            r.programs@.len() == 0,
            r.selected is None,
    {
        State { input: String::new(), programs: Vec::new(), filtered: Vec::new(), selected: None }
    }

    /// Moves the selection one step in `dir` through the filtered programs
    /// (see `moved`).
    pub fn move_index(&mut self, dir: Dir)
        ensures
            final(self).selected == moved(old(self).selected, old(self).filtered@.len(), dir),
            final(self).input == old(self).input,
            final(self).programs == old(self).programs,
            final(self).filtered == old(self).filtered,
            dir == Dir::Same || selection_ok(old(self).selected, old(self).filtered@.len())
                ==> selection_ok(final(self).selected, final(self).filtered@.len()),
            old(self).wf() ==> final(self).wf(),
    {
        let len = self.filtered.len();
        if len == 0 {
            self.selected = None;
        } else {
            self.selected = match self.selected {
                None => Some(0),
                Some(i) => Some(
                    match dir {
                        Dir::Down => if i >= len - 1 { 0 } else { i + 1 },
                        Dir::Up => if i == 0 { len - 1 } else { i - 1 },
                        Dir::Same => if i >= len { len - 1 } else { i },
                    },
                ),
            };
        }
    }

    /// Appends `new_char` to the query and filters again.
    pub fn enter_char(&mut self, new_char: char)
        ensures
            final(self).input@ == old(self).input@.push(new_char),
            final(self).programs == old(self).programs,
            final(self).selected == moved(old(self).selected, final(self).filtered@.len(), Dir::Same),
            final(self).wf(),
    {
        push_char(&mut self.input, new_char);
        self.filter();
    }

    /// Removes the last character of the query and filters again; an empty
    /// query leaves the whole state as it is.
    pub fn delete_char(&mut self)
        ensures
            old(self).input@.len() == 0 ==> *final(self) == *old(self),
            old(self).wf() ==> final(self).wf(),
            old(self).input@.len() > 0 ==> {
                &&& final(self).input@ == old(self).input@.drop_last()
                &&& final(self).programs == old(self).programs
                &&& final(self).selected == moved(old(self).selected, final(self).filtered@.len(), Dir::Same)
                &&& final(self).wf()
            },
    {
        let len = self.input.as_str().unicode_len();
        if len > 0 {
            let kept = String::from_str(self.input.as_str().substring_char(0, len - 1));
            self.input = kept;
            self.filter();
        }
    }

    /// Removes the last word of the query, with the white space that parts it
    /// from the rest, and filters again.
    pub fn delete_word(&mut self)
        ensures
            final(self).input@ == without_last_word(old(self).input@),
            final(self).programs == old(self).programs,
            final(self).selected == moved(old(self).selected, final(self).filtered@.len(), Dir::Same),
            final(self).wf(),
    {
        self.input = drop_last_word(self.input.as_str());
        self.filter();
    }

    /// Takes the programs of all `sources`, one after another in the order
    /// given, as the candidates, and filters them by the current query.
    pub fn load_progams(&mut self, sources: Vec<Vec<Program>>)
        ensures
            final(self).programs@ == joined(sources@, sources@.len()),
            final(self).input == old(self).input,
            final(self).selected == moved(old(self).selected, final(self).filtered@.len(), Dir::Same),
            final(self).wf(),
    {
        let mut programs: Vec<Program> = Vec::new();
        let mut rest = sources;
        while rest.len() > 0
            invariant
                rest@.len() <= sources@.len(),
                rest@ == sources@.subrange(sources@.len() - rest@.len(), sources@.len() as int),
                programs@ == joined(sources@, (sources@.len() - rest@.len()) as nat),
            decreases rest@.len(),
        {
            let mut source = rest.remove(0);
            programs.append(&mut source);
        }
        self.programs = programs;
        self.filter();
    }

    /// The selected program, if the view holds any.
    pub fn current_selection(&self) -> (r: Option<&Program>)
        requires
            self.wf(),
        ensures
            r == (if self.view_programs().len() == 0 {
                None::<&Program>
            } else {
                Some(&self.view_programs()[self.selected->0 as int])
            }),
    {
        proof {
            lemma_matching_bounds(self.programs@, self.input@, self.programs@.len());
        }
        match self.selected {
            Some(i) => Some(&self.programs[self.filtered[i]]),
            None => None,
        }
    }

    /// Rebuilds the filtered list from the programs and the query, then
    /// clamps the selection into it.
    fn filter(&mut self)
        ensures
            final(self).input == old(self).input,
            final(self).programs == old(self).programs,
            final(self).selected == moved(old(self).selected, final(self).filtered@.len(), Dir::Same),
            final(self).wf(),
    {
        self.filtered = matching_indices(&self.programs, &self.input);
        self.move_index(Dir::Same);
    }
}


/// Every position that `matching` lists names a program that matches, and
/// every program among the first `n` that matches is listed.
proof fn lemma_matching_members(programs: Seq<Program>, query: Seq<char>, n: nat)
    requires
        n <= usize::MAX,
        n <= programs.len(),
    ensures
        forall|k: int|
            0 <= k < matching(programs, query, n).len() ==> name_matches(
                programs[matching(programs, query, n)[k] as int].name@,
                query,
            ),
        forall|j: int|
            0 <= j < n && name_matches(programs[j].name@, query) ==> matching(
                programs,
                query,
                n,
            ).contains(j as usize),
    decreases n,
{
    if n > 0 {
        let m = (n - 1) as nat;
        lemma_matching_members(programs, query, m);
        let earlier = matching(programs, query, m);
        if name_matches(programs[n - 1].name@, query) {
            let now = earlier.push((n - 1) as usize);
            assert forall|j: int|
                0 <= j < n && name_matches(programs[j].name@, query) implies now.contains(
                j as usize,
            ) by {
                if j < n - 1 {
                    let k = choose|k: int| 0 <= k < earlier.len() && earlier[k] == j as usize;
                    assert(now[k] == j as usize);
                } else {
                    assert(now[now.len() - 1] == j as usize);
                }
            }
        }
    }
}

/// The filtered view holds only programs of the candidates, taken in their
/// order through strictly increasing positions, and a candidate is in view
/// exactly when its name matches the query.
pub proof fn lemma_filtered_view_members(programs: Seq<Program>, query: Seq<char>)
    requires
        programs.len() <= usize::MAX,
    ensures
        ({
            let m = matching(programs, query, programs.len());
            &&& filtered_view(programs, query).len() == m.len()
            &&& forall|k: int|
                0 <= k < m.len() ==> m[k] < programs.len() && #[trigger] filtered_view(
                    programs,
                    query,
                )[k] == programs[m[k] as int]
            &&& forall|j: int, k: int| 0 <= j < k < m.len() ==> m[j] < m[k]
        }),
        forall|p: Program|
            filtered_view(programs, query).contains(p) <==> (programs.contains(p) && name_matches(
                p.name@,
                query,
            )),
{
    let n = programs.len();
    let m = matching(programs, query, n);
    let v = filtered_view(programs, query);
    lemma_matching_bounds(programs, query, n);
    lemma_matching_members(programs, query, n);
    assert forall|p: Program|
        v.contains(p) <==> (programs.contains(p) && name_matches(p.name@, query)) by {
        if v.contains(p) {
            let k = choose|k: int| 0 <= k < v.len() && v[k] == p;
            assert(programs[m[k] as int] == p);
        }
        if programs.contains(p) && name_matches(p.name@, query) {
            let j = choose|j: int| 0 <= j < programs.len() && programs[j] == p;
            assert(m.contains(j as usize));
            let k = choose|k: int| 0 <= k < m.len() && m[k] == j as usize;
            assert(v[k] == p);
        }
    }
}

/// With the empty query `matching` lists every position below `n`.
proof fn lemma_matching_empty_query(programs: Seq<Program>, n: nat)
    requires
        n <= usize::MAX,
    ensures
        matching(programs, Seq::empty(), n) == Seq::new(n, |i: int| i as usize),
    decreases n,
{
    if n > 0 {
        lemma_matching_empty_query(programs, (n - 1) as nat);
        assert(matching(programs, Seq::empty(), n) =~= Seq::new(n, |i: int| i as usize));
    } else {
        assert(matching(programs, Seq::empty(), n) =~= Seq::new(n, |i: int| i as usize));
    }
}

/// The empty query keeps every candidate, in the original order.
pub proof fn lemma_empty_query_keeps_all(programs: Seq<Program>)
    requires
        programs.len() <= usize::MAX,
    ensures
        filtered_view(programs, Seq::empty()) == programs,
{
    lemma_matching_empty_query(programs, programs.len());
    assert(filtered_view(programs, Seq::empty()) =~= programs);
}

/// The selection after `k` moves in `dir` from `selected` through a view of
/// `len` programs.
pub open spec fn moved_times(selected: Option<usize>, len: nat, dir: Dir, k: nat) -> Option<usize>
    decreases k,
{
    if k == 0 {
        selected
    } else {
        moved_times(moved(selected, len, dir), len, dir, (k - 1) as nat)
    }
}

proof fn lemma_moved_down_times(i: nat, len: nat, k: nat)
    requires
        i < len <= usize::MAX,
    ensures
        moved_times(Some(i as usize), len, Dir::Down, k) == Some((((i + k) as int) % (len as int)) as usize),
    decreases k,
{
    if k > 0 {
        let next: nat = if i + 1 >= len { 0 } else { i + 1 };
        assert(moved(Some(i as usize), len, Dir::Down) == Some(next as usize));
        lemma_moved_down_times(next, len, (k - 1) as nat);
        if i + 1 >= len {
            assert(i + k == len + (k - 1)) ;
            vstd::arithmetic::div_mod::lemma_mod_add_multiples_vanish((k - 1) as int, len as int);
        }
    } else {
        vstd::arithmetic::div_mod::lemma_small_mod(i, len);
    }
}

/// Moving down as many times as the view has programs brings the selection
/// back to where it started.
pub proof fn lemma_selection_cycles(selected: usize, len: nat)
    requires
        selected < len <= usize::MAX,
    ensures
        moved_times(Some(selected), len, Dir::Down, len) == Some(selected),
{
    lemma_moved_down_times(selected as nat, len, len);
    vstd::arithmetic::div_mod::lemma_mod_add_multiples_vanish(selected as int, len as int);
    vstd::arithmetic::div_mod::lemma_small_mod(selected as nat, len);
}

} // verus!

verus! {

/// A name that holds a pattern's characters in order also holds those of the
/// pattern without its last character.
proof fn lemma_subsequence_drop_last(name: Seq<char>, pattern: Seq<char>)
    requires
        pattern.len() > 0,
        subsequence_ignoring_case(name, pattern),
    ensures
        subsequence_ignoring_case(name, pattern.drop_last()),
    decreases name.len(),
{
    if pattern.len() > 1 {
        if same_ignoring_ascii_case(name[0], pattern[0]) {
            lemma_subsequence_drop_last(name.drop_first(), pattern.drop_first());
            assert(pattern.drop_first().drop_last() =~= pattern.drop_last().drop_first());
        } else {
            lemma_subsequence_drop_last(name.drop_first(), pattern);
        }
    }
}

/// Typing one more character can only narrow the view: every program in view
/// under the longer query is in view under the shorter one.
pub proof fn lemma_longer_query_narrows(programs: Seq<Program>, query: Seq<char>, c: char)
    requires
        programs.len() <= usize::MAX,
    ensures
        forall|p: Program|
            filtered_view(programs, query.push(c)).contains(p) ==> filtered_view(
                programs,
                query,
            ).contains(p),
{
    lemma_filtered_view_members(programs, query);
    lemma_filtered_view_members(programs, query.push(c));
    assert(query.push(c).drop_last() =~= query);
    assert forall|p: Program|
        filtered_view(programs, query.push(c)).contains(p) implies filtered_view(
        programs,
        query,
    ).contains(p) by {
        assert(programs.contains(p) && name_matches(p.name@, query.push(c)));
        lemma_subsequence_drop_last(p.name@, query.push(c));
        assert(name_matches(p.name@, query));
    }
}

} // verus!
