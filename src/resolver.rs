//! The merged name-to-value map of both scopes and the expansion of `%NAME%`
//! references through it.

use vstd::prelude::*;

use crate::text::{
    chars_of, first_from, lemma_first_from, lemma_first_from_suffix, string_of, to_upper, upper_of,
};

verus! {

/// How many passes an expansion makes at most.
pub const MAX_PASSES: usize = 5;

/// A map from names to values, each name held once.
pub struct RefMap {
    entries: Vec<(String, String)>,
    model: Ghost<Map<Seq<char>, Seq<char>>>,
}

impl View for RefMap {
    type V = Map<Seq<char>, Seq<char>>;

    closed spec fn view(&self) -> Map<Seq<char>, Seq<char>> {
        self.model@
    }
}

/// `m` with each entry's upper-cased name set to its value, in order: a later entry
/// wins over an earlier one of the same upper-cased name.
pub open spec fn with_entries(m: Map<Seq<char>, Seq<char>>, entries: Seq<(String, String)>) -> Map<
    Seq<char>,
    Seq<char>,
>
    decreases entries.len(),
{
    if entries.len() == 0 {
        m
    } else {
        with_entries(m, entries.drop_last()).insert(
            upper_of(entries.last().0@),
            entries.last().1@,
        )
    }
}

/// The reference map of a listing: the user's entries, then the machine-wide ones,
/// which win on a name that both scopes hold.
pub open spec fn reference_map(user: Seq<(String, String)>, system: Seq<(String, String)>) -> Map<
    Seq<char>,
    Seq<char>,
> {
    with_entries(with_entries(Map::empty(), user), system)
}

impl RefMap {
    pub closed spec fn wf(&self) -> bool {
        &&& forall|i: int|
            0 <= i < self.entries.len() ==> self.model@.contains_key(
                (#[trigger] self.entries@[i]).0@,
            ) && self.model@[self.entries@[i].0@] == self.entries@[i].1@
        &&& forall|k: Seq<char>|
            #[trigger] self.model@.contains_key(k) ==> exists|i: int|
                0 <= i < self.entries.len() && (#[trigger] self.entries@[i]).0@ == k
        &&& forall|i: int, j: int|
            0 <= i < j < self.entries.len() ==> (#[trigger] self.entries@[i]).0@ != (
            #[trigger] self.entries@[j]).0@
    }

    /// The empty map.
    pub fn new() -> (r: RefMap)
        ensures
            r.wf(),
            r@ == Map::<Seq<char>, Seq<char>>::empty(),
    {
        RefMap { entries: Vec::new(), model: Ghost(Map::empty()) }
    }

    /// Where `key` stands among the entries, if it does.
    fn position(&self, key: &String) -> (r: Option<usize>)
        requires
            self.wf(),
        ensures
            match r {
                Some(i) => i < self.entries.len() && self.entries@[i as int].0@ == key@,
                None => !self@.contains_key(key@),
            },
    {
        let mut i: usize = 0;
        while i < self.entries.len()
            invariant
                self.wf(),
                i <= self.entries.len(),
                forall|k: int| 0 <= k < i ==> (#[trigger] self.entries@[k]).0@ != key@,
            decreases self.entries.len() - i,
        {
            if self.entries[i].0 == *key {
                return Some(i);
            }
            i += 1;
        }
        None
    }

    /// The value of `key`.
    pub fn get(&self, key: &String) -> (r: Option<&String>)
        requires
            self.wf(),
        ensures
            match r {
                Some(v) => self@.contains_key(key@) && v@ == self@[key@],
                None => !self@.contains_key(key@),
            },
    {
        match self.position(key) {
            Some(i) => Some(&self.entries[i].1),
            None => None,
        }
    }

    /// Sets `key` to `value`, replacing what `key` held.
    pub fn insert(&mut self, key: String, value: String)
        requires
            old(self).wf(),
        ensures
            final(self).wf(),
            final(self)@ == old(self)@.insert(key@, value@),
    {
        let ghost m = self.model@.insert(key@, value@);
        let ghost at: int;
        match self.position(&key) {
            Some(i) => {
                self.entries.set(i, (key, value));
                proof {
                    at = i as int;
                }
            },
            None => {
                self.entries.push((key, value));
                proof {
                    at = self.entries.len() - 1;
                }
            },
        }
        self.model = Ghost(m);
        assert forall|k: Seq<char>| #[trigger] self.model@.contains_key(k) implies exists|i: int|
            0 <= i < self.entries.len() && (#[trigger] self.entries@[i]).0@ == k by {
            if k == key@ {
                assert(self.entries@[at].0@ == k);
            } else {
                let j = choose|j: int| 0 <= j < old(self).entries.len() && (#[trigger] old(
                    self,
                ).entries@[j]).0@ == k;
                assert(self.entries@[j].0@ == k);
            }
        }
    }

    /// Sets the upper-cased name of each entry to its value, in order.
    fn insert_upper(&mut self, entries: &Vec<(String, String)>)
        requires
            old(self).wf(),
        ensures
            final(self).wf(),
            final(self)@ == with_entries(old(self)@, entries@),
    {
        let mut i: usize = 0;
        while i < entries.len()
            invariant
                i <= entries.len(),
                self.wf(),
                self@ == with_entries(old(self)@, entries@.subrange(0, i as int)),
            decreases entries.len() - i,
        {
            assert(entries@.subrange(0, i + 1).drop_last() =~= entries@.subrange(0, i as int));
            let key = to_upper(entries[i].0.as_str());
            self.insert(key, entries[i].1.clone());
            i += 1;
        }
        assert(entries@.subrange(0, entries.len() as int) =~= entries@);
    }
}

/// The reference map of a listing, keyed by upper-cased names: the user's entries
/// first, then the machine-wide ones, which win where a name is in both.
pub fn build_map(user: &Vec<(String, String)>, system: &Vec<(String, String)>) -> (r: RefMap)
    ensures
        r.wf(),
        r@ == reference_map(user@, system@),
{
    let mut r = RefMap::new();
    r.insert_upper(user);
    r.insert_upper(system);
    r
}

/// One left-to-right pass over `s`: each `%NAME%` (a non-empty name without `%`)
/// whose upper-cased name `m` holds becomes its value; any other stays as it is.
pub open spec fn expand_pass(s: Seq<char>, m: Map<Seq<char>, Seq<char>>) -> Seq<char>
    decreases s.len(),
{
    if s.len() == 0 {
        s
    } else if s[0] != '%' {
        seq![s[0]] + expand_pass(s.drop_first(), m)
    } else {
        let j = first_from(s, '%', 1);
        if j == 1 {
            seq!['%'] + expand_pass(s.drop_first(), m)
        } else if 1 < j < s.len() {
            let key = upper_of(s.subrange(1, j));
            let replaced = if m.contains_key(key) {
                m[key]
            } else {
                s.subrange(0, j + 1)
            };
            replaced + expand_pass(s.subrange(j + 1, s.len() as int), m)
        } else {
            s
        }
    }
}

/// `n` passes over `s`.
pub open spec fn passes(s: Seq<char>, m: Map<Seq<char>, Seq<char>>, n: nat) -> Seq<char>
    decreases n,
{
    if n == 0 {
        s
    } else {
        passes(expand_pass(s, m), m, (n - 1) as nat)
    }
}

/// The expansion of `s` through `m`: at most `MAX_PASSES` passes. Once a pass
/// changes nothing, the further ones change nothing either.
pub open spec fn expanded(s: Seq<char>, m: Map<Seq<char>, Seq<char>>) -> Seq<char> {
    passes(s, m, MAX_PASSES as nat)
}

/// Passes over a text that a pass leaves as it is leave it as it is.
pub proof fn lemma_passes_fixpoint(s: Seq<char>, m: Map<Seq<char>, Seq<char>>, n: nat)
    requires
        expand_pass(s, m) == s,
    ensures
        passes(s, m, n) == s,
    decreases n,
{
    if n > 0 {
        lemma_passes_fixpoint(s, m, (n - 1) as nat);
    }
}

/// A reference starts at `i` in `s`: a `%` whose next `%` comes after at least one
/// other character.
pub open spec fn reference_at(s: Seq<char>, i: int) -> bool {
    0 <= i < s.len() && s[i] == '%' && i + 1 < first_from(s, '%', i + 1) < s.len()
}

/// Whether `s` holds a reference.
pub open spec fn has_reference(s: Seq<char>) -> bool {
    exists|i: int| #[trigger] reference_at(s, i)
}

/// `s` is `before`, `%`, `name`, `%`, `after`, and the reference to `name` is the
/// leftmost one in `s`.
pub open spec fn leftmost_reference(
    s: Seq<char>,
    before: Seq<char>,
    name: Seq<char>,
    after: Seq<char>,
) -> bool {
    &&& s == before + seq!['%'] + name + seq!['%'] + after
    &&& reference_at(s, before.len() as int)
    &&& first_from(s, '%', before.len() as int + 1) == before.len() + name.len() + 1
    &&& forall|i: int| 0 <= i < before.len() ==> !#[trigger] reference_at(s, i)
}

/// The pattern of a reference: `%`, one or more characters other than `%`, `%`.
const REFERENCE_PATTERN: &'static str = "%[^%]+%";

/// Relies on regex's `Regex::new`, which accepts this pattern, and `Regex::find`,
/// which gives the leftmost-first match of `%[^%]+%`: split here into the text
/// before the match, the match, the text after it.
#[verifier::external_body]
fn first_reference(s: &str) -> (r: Option<(String, String, String)>)
    ensures
        r is None <==> !has_reference(s@),
        r matches Some((before, found, after)) ==> found@.len() >= 2 && leftmost_reference(
            s@,
            before@,
            found@.subrange(1, found@.len() - 1),
            after@,
        ),
{
    let re = regex::Regex::new(REFERENCE_PATTERN).expect("the reference pattern is valid");
    match re.find(s) {
        Some(m) => Some((s[..m.start()].to_string(), m.as_str().to_string(), s[m.end()..].to_string())),
        None => None,
    }
}

/// The reference in `s` that starts at `i + 1` starts at `i` in `s` without its
/// first character.
proof fn lemma_reference_shift(s: Seq<char>, i: int)
    requires
        s.len() > 0,
        0 <= i < s.len() - 1,
    ensures
        reference_at(s.drop_first(), i) == reference_at(s, i + 1),
{
    lemma_first_from_suffix(s, '%', 1, i + 2);
    assert(s.drop_first() =~= s.subrange(1, s.len() as int));
}

/// A pass leaves a text without references as it is.
proof fn lemma_pass_plain_text(s: Seq<char>, m: Map<Seq<char>, Seq<char>>)
    requires
        !has_reference(s),
    ensures
        expand_pass(s, m) == s,
    decreases s.len(),
{
    if s.len() > 0 {
        let d = s.drop_first();
        assert(!has_reference(d)) by {
            if has_reference(d) {
                let i = choose|i: int| #[trigger] reference_at(d, i);
                lemma_reference_shift(s, i);
                assert(reference_at(s, i + 1));
            }
        }
        lemma_pass_plain_text(d, m);
        if s[0] == '%' {
            lemma_first_from(s, '%', 1);
            let j = first_from(s, '%', 1);
            if 1 < j < s.len() {
                assert(reference_at(s, 0));
            }
        }
        assert(seq![s[0]] + d =~= s);
    }
}

/// What a pass puts in place of the reference to `name`.
pub open spec fn replacement(name: Seq<char>, m: Map<Seq<char>, Seq<char>>) -> Seq<char> {
    if m.contains_key(upper_of(name)) {
        m[upper_of(name)]
    } else {
        seq!['%'] + name + seq!['%']
    }
}

/// A pass copies the text before the leftmost reference, replaces the reference,
/// and goes on after it.
proof fn lemma_pass_at_leftmost(
    s: Seq<char>,
    before: Seq<char>,
    name: Seq<char>,
    after: Seq<char>,
    m: Map<Seq<char>, Seq<char>>,
)
    requires
        leftmost_reference(s, before, name, after),
    ensures
        expand_pass(s, m) == before + replacement(name, m) + expand_pass(after, m),
    decreases before.len(),
{
    let p = before.len() as int;
    let j = p + name.len() + 1;
    if p == 0 {
        assert(s.subrange(1, j) =~= name);
        assert(s.subrange(0, j + 1) =~= seq!['%'] + name + seq!['%']);
        assert(s.subrange(j + 1, s.len() as int) =~= after);
        assert(before + replacement(name, m) =~= replacement(name, m));
    } else {
        let d = s.drop_first();
        let b = before.drop_first();
        assert(d =~= b + seq!['%'] + name + seq!['%'] + after);
        lemma_reference_shift(s, p - 1);
        lemma_first_from_suffix(s, '%', 1, p + 1);
        assert(d =~= s.subrange(1, s.len() as int));
        assert forall|i: int| 0 <= i < b.len() implies !#[trigger] reference_at(d, i) by {
            lemma_reference_shift(s, i);
            assert(!reference_at(s, i + 1));
        }
        lemma_pass_at_leftmost(d, b, name, after, m);
        if s[0] == '%' {
            lemma_first_from(s, '%', 1);
            let k = first_from(s, '%', 1);
            assert(!reference_at(s, 0));
            assert(s[p] == '%');
            assert(k <= p);
        }
        assert(seq![s[0]] + (b + replacement(name, m) + expand_pass(after, m)) =~= before
            + replacement(name, m) + expand_pass(after, m));
    }
}

/// One pass over `text`; the flag tells whether a reference was replaced. Where
/// none was, the text comes back as it was.
fn expand_once(text: &str, refs: &RefMap) -> (r: (String, bool))
    requires
        refs.wf(),
    ensures
        r.0@ == expand_pass(text@, refs@),
        !r.1 ==> r.0@ == text@,
{
    let mut out = String::new();
    let mut rest = String::from_str(text);
    let mut hit = false;
    loop
        invariant
            refs.wf(),
            out@ + expand_pass(rest@, refs@) == expand_pass(text@, refs@),
            !hit ==> out@ + rest@ == text@,
        ensures
            out@ == expand_pass(text@, refs@),
            !hit ==> out@ == text@,
        decreases rest@.len(),
    {
        match first_reference(rest.as_str()) {
            None => {
                proof {
                    lemma_pass_plain_text(rest@, refs@);
                }
                out.append(rest.as_str());
                return (out, hit);
            },
            Some((before, found, after)) => {
                let found_chars = chars_of(found.as_str());
                let name = string_of(&found_chars, 1, found_chars.len() - 1);
                proof {
                    lemma_pass_at_leftmost(rest@, before@, name@, after@, refs@);
                }
                let ghost prior = out@;
                out.append(before.as_str());
                let key = to_upper(name.as_str());
                match refs.get(&key) {
                    Some(value) => {
                        out.append(value.as_str());
                        hit = true;
                    },
                    None => {
                        out.append("%");
                        out.append(name.as_str());
                        out.append("%");
                        proof {
                            reveal_strlit("%");
                        }
                    },
                }
                assert(out@ == prior + before@ + replacement(name@, refs@));
                assert(out@ + expand_pass(after@, refs@) =~= prior + (before@ + replacement(
                    name@,
                    refs@,
                ) + expand_pass(after@, refs@)));
                proof {
                    if !hit {
                        assert(out@ + after@ =~= prior + rest@);
                    }
                }
                rest = after;
            },
        }
    }
}

/// The expansion of `text` through `refs`: up to `MAX_PASSES` passes, stopping
/// early once a pass replaces nothing.
pub fn expand(text: &str, refs: &RefMap) -> (r: String)
    requires
        refs.wf(),
    ensures
        r@ == expanded(text@, refs@),
{
    let mut cur = String::from_str(text);
    let mut done: usize = 0;
    while done < MAX_PASSES
        invariant
            refs.wf(),
            done <= MAX_PASSES,
            passes(cur@, refs@, (MAX_PASSES - done) as nat) == expanded(text@, refs@),
        decreases MAX_PASSES - done,
    {
        let (next, hit) = expand_once(cur.as_str(), refs);
        if hit {
            cur = next;
            done += 1;
        } else {
            proof {
                lemma_passes_fixpoint(cur@, refs@, (MAX_PASSES - done) as nat);
            }
            done = MAX_PASSES;
        }
    }
    cur
}

/// A text without references expands to itself, whatever the map.
pub proof fn lemma_expand_plain_text(t: Seq<char>, m: Map<Seq<char>, Seq<char>>)
    requires
        !has_reference(t),
    ensures
        expanded(t, m) == t,
{
    lemma_pass_plain_text(t, m);
    lemma_passes_fixpoint(t, m, MAX_PASSES as nat);
}

} // verus!
