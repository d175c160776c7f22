//! The command index (executable names, ordered case-insensitively and
//! without duplicates) and the cursor over a run of its candidates.

use vstd::prelude::*;
use vstd::string::StrSliceExecFns;

verus! {

/// The bytes of a name, as they reach the terminal.
pub open spec fn name_bytes(name: Seq<char>) -> Seq<u8> {
    vstd::utf8::encode_utf8(name)
}

/// `p` is a prefix of `s`.
pub open spec fn has_prefix(s: Seq<u8>, p: Seq<u8>) -> bool {
    p.len() <= s.len() && s.subrange(0, p.len() as int) == p
}

/// The name starts with the bytes `p`.
pub open spec fn name_matches(name: Seq<char>, p: Seq<u8>) -> bool {
    has_prefix(name_bytes(name), p)
}

fn prefix_eq(name: &String, prefix: &[u8]) -> (r: bool)
    ensures
        r == name_matches(name@, prefix@),
{
    let bytes = name.as_str().as_bytes();
    if prefix.len() > bytes.len() {
        return false;
    }
    let mut i: usize = 0;
    while i < prefix.len()
        invariant
            prefix@.len() <= bytes@.len(),
            bytes@ == name_bytes(name@),
            0 <= i <= prefix@.len(),
            bytes@.subrange(0, i as int) == prefix@.subrange(0, i as int),
        decreases prefix@.len() - i,
    {
        if bytes[i] != prefix[i] {
            assert(bytes@.subrange(0, prefix@.len() as int)[i as int] != prefix@[i as int]);
            return false;
        }
        assert(bytes@.subrange(0, i + 1) =~= bytes@.subrange(0, i as int).push(bytes@[i as int]));
        assert(prefix@.subrange(0, i + 1) =~= prefix@.subrange(0, i as int).push(prefix@[i as int]));
        i = i + 1;
    }
    assert(prefix@.subrange(0, prefix@.len() as int) =~= prefix@);
    true
}


/// Strict lexicographic order on byte strings (the order of `str`).
pub open spec fn lex_lt(a: Seq<u8>, b: Seq<u8>) -> bool
    decreases a.len(),
{
    if a.len() == 0 {
        b.len() > 0
    } else if b.len() == 0 {
        false
    } else if a[0] != b[0] {
        a[0] < b[0]
    } else {
        lex_lt(a.drop_first(), b.drop_first())
    }
}

/// The lowercase form of a name, as `str::to_lowercase` computes it.
pub uninterp spec fn lower_of(s: Seq<char>) -> Seq<char>;

/// The bytes of the lowercase form of a name.
pub open spec fn lower_bytes(name: Seq<char>) -> Seq<u8> {
    name_bytes(lower_of(name))
}

/// `(la, a)` comes before `(lb, b)`: by the first components, then by the
/// second.
pub open spec fn pair_lt(la: Seq<u8>, a: Seq<u8>, lb: Seq<u8>, b: Seq<u8>) -> bool {
    ||| lex_lt(la, lb)
    ||| (la == lb && lex_lt(a, b))
}

/// The index order: by lowercase form first, then by the bytes themselves.
pub open spec fn key_lt(a: Seq<char>, b: Seq<char>) -> bool {
    pair_lt(lower_bytes(a), name_bytes(a), lower_bytes(b), name_bytes(b))
}

/// `lower(a) <= lower(b)`, compared as byte strings.
pub open spec fn lower_le(a: Seq<char>, b: Seq<char>) -> bool {
    !lex_lt(lower_bytes(b), lower_bytes(a))
}

pub proof fn lemma_lex_irreflexive(a: Seq<u8>)
    ensures
        !lex_lt(a, a),
    decreases a.len(),
{
    if a.len() > 0 {
        lemma_lex_irreflexive(a.drop_first());
    }
}

pub proof fn lemma_lex_total(a: Seq<u8>, b: Seq<u8>)
    ensures
        a == b || lex_lt(a, b) || lex_lt(b, a),
        !(lex_lt(a, b) && lex_lt(b, a)),
    decreases a.len(),
{
    if a.len() > 0 && b.len() > 0 && a[0] == b[0] {
        lemma_lex_total(a.drop_first(), b.drop_first());
        if a.drop_first() == b.drop_first() {
            assert(a =~= seq![a[0]] + a.drop_first());
            assert(b =~= seq![b[0]] + b.drop_first());
        }
    } else if a.len() == 0 && b.len() == 0 {
        assert(a =~= b);
    }
}

pub proof fn lemma_lex_transitive(a: Seq<u8>, b: Seq<u8>, c: Seq<u8>)
    requires
        lex_lt(a, b),
        lex_lt(b, c),
    ensures
        lex_lt(a, c),
    decreases a.len(),
{
    if a.len() > 0 && b.len() > 0 && c.len() > 0 && a[0] == b[0] && b[0] == c[0] {
        lemma_lex_transitive(a.drop_first(), b.drop_first(), c.drop_first());
    }
}

proof fn lemma_name_bytes_injective(a: Seq<char>, b: Seq<char>)
    requires
        name_bytes(a) == name_bytes(b),
    ensures
        a == b,
{
    vstd::utf8::encode_utf8_decode_utf8(a);
    vstd::utf8::encode_utf8_decode_utf8(b);
}

pub proof fn lemma_key_total(a: Seq<char>, b: Seq<char>)
    ensures
        a == b || key_lt(a, b) || key_lt(b, a),
        !(key_lt(a, b) && key_lt(b, a)),
        !key_lt(a, a),
{
    lemma_lex_total(lower_bytes(a), lower_bytes(b));
    lemma_lex_total(name_bytes(a), name_bytes(b));
    lemma_lex_irreflexive(lower_bytes(a));
    lemma_lex_irreflexive(name_bytes(a));
    if name_bytes(a) == name_bytes(b) {
        lemma_name_bytes_injective(a, b);
    }
}

pub proof fn lemma_key_transitive(a: Seq<char>, b: Seq<char>, c: Seq<char>)
    requires
        key_lt(a, b),
        key_lt(b, c),
    ensures
        key_lt(a, c),
{
    if lex_lt(lower_bytes(a), lower_bytes(b)) && lex_lt(lower_bytes(b), lower_bytes(c)) {
        lemma_lex_transitive(lower_bytes(a), lower_bytes(b), lower_bytes(c));
    }
    lemma_lex_irreflexive(lower_bytes(a));
    lemma_lex_irreflexive(lower_bytes(b));
    if lower_bytes(a) == lower_bytes(b) && lower_bytes(b) == lower_bytes(c) {
        lemma_lex_transitive(name_bytes(a), name_bytes(b), name_bytes(c));
    }
}

/// Compares two byte strings: negative, zero or positive as `a` comes
/// before, equals or comes after `b`.
fn compare_bytes(a: &[u8], b: &[u8]) -> (r: i8)
    ensures
        r < 0 <==> lex_lt(a@, b@),
        r > 0 <==> lex_lt(b@, a@),
        r == 0 <==> a@ == b@,
{
    proof {
        lemma_lex_total(a@, b@);
        lemma_lex_irreflexive(a@);
    }
    assert(a@.subrange(0, a@.len() as int) =~= a@);
    assert(b@.subrange(0, b@.len() as int) =~= b@);
    let mut i: usize = 0;
    while i < a.len() && i < b.len()
        invariant
            0 <= i <= a@.len(),
            i <= b@.len(),
            a@.subrange(0, i as int) == b@.subrange(0, i as int),
            lex_lt(a@, b@) == lex_lt(a@.subrange(i as int, a@.len() as int), b@.subrange(i as int, b@.len() as int)),
            lex_lt(b@, a@) == lex_lt(b@.subrange(i as int, b@.len() as int), a@.subrange(i as int, a@.len() as int)),
        decreases a@.len() - i,
    {
        let x = a[i];
        let y = b[i];
        let ghost ra = a@.subrange(i as int, a@.len() as int);
        let ghost rb = b@.subrange(i as int, b@.len() as int);
        assert(ra[0] == x && rb[0] == y);
        if x < y {
            return -1;
        }
        if x > y {
            return 1;
        }
        assert(ra.drop_first() =~= a@.subrange(i + 1, a@.len() as int));
        assert(rb.drop_first() =~= b@.subrange(i + 1, b@.len() as int));
        assert(a@.subrange(0, i + 1) =~= a@.subrange(0, i as int).push(x));
        assert(b@.subrange(0, i + 1) =~= b@.subrange(0, i as int).push(y));
        i = i + 1;
    }
    let ghost ra = a@.subrange(i as int, a@.len() as int);
    let ghost rb = b@.subrange(i as int, b@.len() as int);
    if i < b.len() {
        assert(ra.len() == 0 && rb.len() > 0);
        -1
    } else if i < a.len() {
        assert(rb.len() == 0 && ra.len() > 0);
        1
    } else {
        assert(a@ =~= a@.subrange(0, i as int));
        assert(b@ =~= b@.subrange(0, i as int));
        0
    }
}

/// Relies on `str::to_lowercase`: the lowercase form depends on the
/// characters alone.
#[verifier::external_body]
fn lowercase(s: &str) -> (r: String)
    ensures
        r@ == lower_of(s@),
{
    s.to_lowercase()
}

/// Compares `(low_a, a)` with `(low_b, b)` by their bytes, the first
/// components first: negative, zero or positive as the first pair comes
/// before, equals or comes after the second. With `low_x` the lowercase
/// form of `x`, this is the index order.
pub fn compare_keys(low_a: &String, a: &String, low_b: &String, b: &String) -> (r: i8)
    ensures
        r < 0 <==> pair_lt(name_bytes(low_a@), name_bytes(a@), name_bytes(low_b@), name_bytes(b@)),
        r > 0 <==> pair_lt(name_bytes(low_b@), name_bytes(b@), name_bytes(low_a@), name_bytes(a@)),
        r == 0 <==> (low_a@ == low_b@ && a@ == b@),
{
    let c = compare_bytes(low_a.as_str().as_bytes(), low_b.as_str().as_bytes());
    if c != 0 {
        proof {
            lemma_lex_total(name_bytes(low_a@), name_bytes(low_b@));
            if low_a@ == low_b@ {
                lemma_lex_irreflexive(name_bytes(low_a@));
            }
        }
        return c;
    }
    proof {
        lemma_name_bytes_injective(low_a@, low_b@);
        lemma_lex_irreflexive(name_bytes(low_a@));
    }
    let d = compare_bytes(a.as_str().as_bytes(), b.as_str().as_bytes());
    proof {
        lemma_lex_total(name_bytes(a@), name_bytes(b@));
        if d == 0 {
            lemma_name_bytes_injective(a@, b@);
        }
    }
    d
}

/// A cursor over the run `[start, end)` of a sorted sequence of candidates.
/// It is placed on `start` the first time the current candidate is asked
/// for, and never leaves the run.
pub struct ExcerptIter<'a, T> {
    start: usize,
    end: usize,
    pos: Option<usize>,
    subject: &'a Vec<T>,
}

/// Relies on `format!` to render the three numbers in decimal.
#[verifier::external_body]
fn range_message(start: usize, end: usize, len: usize) -> String {
    format!("Wrong range {}:{}; subject length is {}.", start, end, len)
}

impl<'a, T> ExcerptIter<'a, T> {
    pub closed spec fn start(&self) -> usize {
        self.start
    }

    pub closed spec fn end(&self) -> usize {
        self.end
    }

    /// The cursor's position, once it has been placed.
    pub closed spec fn pos(&self) -> Option<usize> {
        self.pos
    }

    /// The whole sequence that the run is taken from.
    pub closed spec fn subject(&self) -> Seq<T> {
        self.subject@
    }

    pub open spec fn wf(&self) -> bool {
        &&& self.start() < self.end() <= self.subject().len()
        &&& (self.pos() matches Some(p) ==> self.start() <= p < self.end())
    }

    /// A cursor over `subject[start..end]`, not yet placed; an error when
    /// the run is empty or does not fit in `subject`.
    pub fn new(subject: &'a Vec<T>, start: usize, end: usize) -> (r: Result<Self, String>)
        ensures
            (start < end && end <= subject@.len()) == r.is_ok(),
            r matches Ok(it) ==> {
                &&& it.wf()
                &&& it.start() == start
                &&& it.end() == end
                &&& it.pos() is None
                &&& it.subject() == subject@
            },
    {
        if start < end && end <= subject.len() {
            Ok(ExcerptIter { start, end, pos: None, subject })
        } else {
            Err(range_message(start, end, subject.len()))
        }
    }

    /// The run, as `(start, end)`.
    pub fn bounds(&self) -> (r: (usize, usize))
        ensures
            r == (self.start(), self.end()),
    {
        (self.start, self.end)
    }

    /// The cursor's position, if it was placed.
    pub fn position(&self) -> (r: Option<usize>)
        ensures
            r == self.pos(),
    {
        self.pos
    }

    /// Moves the cursor by `off` and returns the candidate there; when it
    /// is not yet placed, places it on the first candidate instead. A move
    /// that would leave the run returns `None` and keeps the cursor.
    fn get_offset(&mut self, off: i32) -> (r: Option<&T>)
        requires
            old(self).wf(),
        ensures
            final(self).wf(),
            final(self).start() == old(self).start(),
            final(self).end() == old(self).end(),
            final(self).subject() == old(self).subject(),
            match old(self).pos() {
                None => final(self).pos() == Some(old(self).start()) && r == Some(
                    &old(self).subject()[old(self).start() as int],
                ),
                Some(p) => {
                    let np = p + off;
                    if old(self).start() <= np < old(self).end() {
                        final(self).pos() == Some(np as usize) && r == Some(
                            &old(self).subject()[np],
                        )
                    } else {
                        final(self).pos() == Some(p) && r is None
                    }
                },
            },
    {
        match self.pos {
            Some(p) => {
                if off >= 0 {
                    let d = off as usize;
                    if d < self.end - p {
                        self.pos = Some(p + d);
                        return Some(&self.subject[p + d]);
                    }
                } else {
                    let d = (-(off as i64)) as usize;
                    if d <= p - self.start {
                        self.pos = Some(p - d);
                        return Some(&self.subject[p - d]);
                    }
                }
                None
            },
            None => {
                self.pos = Some(self.start);
                Some(&self.subject[self.start])
            },
        }
    }

    /// The current candidate, placing the cursor on the first one if it
    /// was not placed yet.
    pub fn get(&mut self) -> (r: Option<&T>)
        requires
            old(self).wf(),
        ensures
            final(self).wf(),
            final(self).start() == old(self).start(),
            final(self).end() == old(self).end(),
            final(self).subject() == old(self).subject(),
            final(self).pos() == Some(
                match old(self).pos() {
                    Some(p) => p,
                    None => old(self).start(),
                },
            ),
            r == Some(&final(self).subject()[final(self).pos()->0 as int]),
    {
        self.get_offset(0)
    }

    /// The current candidate, or `None` if the cursor was never placed.
    pub fn peek(&self) -> (r: Option<&T>)
        requires
            self.wf(),
        ensures
            match self.pos() {
                Some(p) => r == Some(&self.subject()[p as int]),
                None => r is None,
            },
    {
        match self.pos {
            Some(p) => Some(&self.subject[p]),
            None => None,
        }
    }

    /// Steps to the next candidate of the run (or places the cursor).
    pub fn next(&mut self) -> (r: Option<&T>)
        requires
            old(self).wf(),
        ensures
            final(self).wf(),
            final(self).start() == old(self).start(),
            final(self).end() == old(self).end(),
            final(self).subject() == old(self).subject(),
            match old(self).pos() {
                None => final(self).pos() == Some(old(self).start()) && r == Some(
                    &old(self).subject()[old(self).start() as int],
                ),
                Some(p) => if p + 1 < old(self).end() {
                    final(self).pos() == Some((p + 1) as usize) && r == Some(
                        &old(self).subject()[p + 1],
                    )
                } else {
                    final(self).pos() == Some(p) && r is None
                },
            },
    {
        self.get_offset(1)
    }

    /// Steps to the previous candidate of the run (or places the cursor).
    pub fn prev(&mut self) -> (r: Option<&T>)
        requires
            old(self).wf(),
        ensures
            final(self).wf(),
            final(self).start() == old(self).start(),
            final(self).end() == old(self).end(),
            final(self).subject() == old(self).subject(),
            match old(self).pos() {
                None => final(self).pos() == Some(old(self).start()) && r == Some(
                    &old(self).subject()[old(self).start() as int],
                ),
                Some(p) => if old(self).start() < p {
                    final(self).pos() == Some((p - 1) as usize) && r == Some(
                        &old(self).subject()[p - 1],
                    )
                } else {
                    final(self).pos() == Some(p) && r is None
                },
            },
    {
        self.get_offset(-1)
    }
}

/// What a sequence of strings holds, as character sequences.
pub open spec fn views(v: Seq<String>) -> Seq<Seq<char>> {
    v.map_values(|s: String| s@)
}

/// Every name comes before every later one in the index order.
pub open spec fn strictly_sorted(v: Seq<Seq<char>>) -> bool {
    forall|i: int, j: int| 0 <= i < j < v.len() ==> key_lt(#[trigger] v[i], #[trigger] v[j])
}

/// `[s, e)` is the first run of consecutive names that start with `p`.
pub open spec fn is_first_run(names: Seq<Seq<char>>, p: Seq<u8>, s: int, e: int) -> bool {
    &&& 0 <= s < e <= names.len()
    &&& forall|j: int| 0 <= j < s ==> !name_matches(#[trigger] names[j], p)
    &&& forall|j: int| s <= j < e ==> name_matches(#[trigger] names[j], p)
    &&& (e == names.len() || !name_matches(names[e], p))
}

/// No name starts with `p`.
pub open spec fn no_match(names: Seq<Seq<char>>, p: Seq<u8>) -> bool {
    forall|j: int| 0 <= j < names.len() ==> !name_matches(#[trigger] names[j], p)
}

/// A strictly sorted index holds each name once, and the lowercase forms of
/// neighbours are in order.
pub proof fn lemma_sorted_index(v: Seq<Seq<char>>)
    requires
        strictly_sorted(v),
    ensures
        v.no_duplicates(),
        forall|k: int| 0 <= k < v.len() - 1 ==> lower_le(#[trigger] v[k], v[k + 1]),
{
    assert forall|i: int, j: int| 0 <= i < v.len() && 0 <= j < v.len() && i != j implies v[i]
        != v[j] by {
        if i < j {
            lemma_key_total(v[i], v[j]);
        } else {
            lemma_key_total(v[j], v[i]);
        }
    }
    assert forall|k: int| 0 <= k < v.len() - 1 implies lower_le(#[trigger] v[k], v[k + 1]) by {
        assert(key_lt(v[k], v[k + 1]));
        lemma_lex_total(lower_bytes(v[k]), lower_bytes(v[k + 1]));
    }
}

/// The executable names known to the session, ordered by their lowercase
/// form (ties broken by the names' bytes), each name once.
pub struct ShCommands {
    cmds: Vec<String>,
}

impl View for ShCommands {
    type V = Seq<Seq<char>>;

    open spec fn view(&self) -> Seq<Seq<char>> {
        views(self.entries())
    }
}

impl ShCommands {
    /// The index's strings themselves, in order.
    pub closed spec fn entries(&self) -> Seq<String> {
        self.cmds@
    }

    /// Builds the index from the names found on the search path: sorted by
    /// lowercase form, each name kept once however often it was found.
    pub fn new(names: Vec<String>) -> (r: Self)
        ensures
            strictly_sorted(r@),
            r@.no_duplicates(),
            forall|k: int| 0 <= k < r@.len() - 1 ==> lower_le(#[trigger] r@[k], r@[k + 1]),
            forall|i: int| 0 <= i < names@.len() ==> r@.contains(#[trigger] names@[i]@),
            forall|k: int| 0 <= k < r@.len() ==> views(names@).contains(#[trigger] r@[k]),
    {
        let mut cmds: Vec<String> = Vec::new();
        let mut lows: Vec<String> = Vec::new();
        let mut i: usize = 0;
        while i < names.len()
            invariant
                0 <= i <= names@.len(),
                cmds@.len() == lows@.len(),
                forall|k: int| 0 <= k < lows@.len() ==> #[trigger] lows@[k]@ == lower_of(cmds@[k]@),
                strictly_sorted(views(cmds@)),
                forall|j: int| 0 <= j < i ==> views(cmds@).contains(#[trigger] names@[j]@),
                forall|k: int|
                    0 <= k < cmds@.len() ==> views(names@).subrange(0, i as int).contains(
                        #[trigger] cmds@[k]@,
                    ),
            decreases names@.len() - i,
        {
            let name = &names[i];
            let low = lowercase(name.as_str());
            let mut p: usize = 0;
            while p < cmds.len() && compare_keys(&lows[p], &cmds[p], &low, name) < 0
                invariant
                    0 <= p <= cmds@.len(),
                    cmds@.len() == lows@.len(),
                    forall|k: int| 0 <= k < lows@.len() ==> #[trigger] lows@[k]@ == lower_of(cmds@[k]@),
                    low@ == lower_of(name@),
                    forall|q: int| 0 <= q < p ==> key_lt(#[trigger] cmds@[q]@, name@),
                decreases cmds@.len() - p,
            {
                p = p + 1;
            }
            let ghost old_cmds = cmds@;
            let ghost old_lows = lows@;
            let ghost vn = views(names@);
            assert(vn.subrange(0, i + 1) =~= vn.subrange(0, i as int).push(name@));
            if p < cmds.len() && compare_keys(&lows[p], &cmds[p], &low, name) == 0 {
                assert(views(cmds@)[p as int] == name@);
                assert forall|k: int| 0 <= k < cmds@.len() implies vn.subrange(0, i + 1).contains(
                    #[trigger] cmds@[k]@,
                ) by {
                    assert(vn.subrange(0, i as int).contains(cmds@[k]@));
                    let w = choose|w: int| 0 <= w < i && vn.subrange(0, i as int)[w] == cmds@[k]@;
                    assert(vn.subrange(0, i + 1)[w] == cmds@[k]@);
                }
            } else {
                proof {
                    if p < cmds@.len() {
                        lemma_key_total(cmds@[p as int]@, name@);
                    }
                }
                cmds.insert(p, name.clone());
                lows.insert(p, low);
                let ghost x = name@;
                assert(views(cmds@) =~= views(old_cmds).insert(p as int, x));
                assert forall|a: int, b: int| 0 <= a < b < cmds@.len() implies key_lt(
                    #[trigger] views(cmds@)[a],
                    #[trigger] views(cmds@)[b],
                ) by {
                    if a == p as int && b > a && b - 1 > p as int {
                        assert(key_lt(views(old_cmds)[p as int], views(old_cmds)[b - 1]));
                        lemma_key_transitive(x, old_cmds[p as int]@, old_cmds[b - 1]@);
                    }
                }
                assert forall|k: int| 0 <= k < lows@.len() implies #[trigger] lows@[k]@
                    == lower_of(cmds@[k]@) by {
                    if k > p as int {
                        assert(lows@[k] == old_lows[k - 1]);
                    }
                }
                assert(views(cmds@)[p as int] == x);
                assert forall|j: int| 0 <= j < i + 1 implies views(cmds@).contains(
                    #[trigger] names@[j]@,
                ) by {
                    if j < i {
                        let w = choose|w: int| 0 <= w < old_cmds.len() && views(old_cmds)[w] == names@[j]@;
                        if w < p {
                            assert(views(cmds@)[w] == names@[j]@);
                        } else {
                            assert(views(cmds@)[w + 1] == names@[j]@);
                        }
                    } else {
                        assert(views(cmds@)[p as int] == names@[j]@);
                    }
                }
                assert forall|k: int| 0 <= k < cmds@.len() implies vn.subrange(0, i + 1).contains(
                    #[trigger] cmds@[k]@,
                ) by {
                    if k == p as int {
                        assert(vn.subrange(0, i + 1)[i as int] == x);
                    } else {
                        let ok = if k < p { k } else { k - 1 };
                        assert(cmds@[k] == old_cmds[ok]);
                        assert(vn.subrange(0, i as int).contains(old_cmds[ok]@));
                        let w = choose|w: int|
                            0 <= w < i && vn.subrange(0, i as int)[w] == old_cmds[ok]@;
                        assert(vn.subrange(0, i + 1)[w] == cmds@[k]@);
                    }
                }
            }
            i = i + 1;
        }
        assert(views(names@).subrange(0, names@.len() as int) =~= views(names@));
        let r = ShCommands { cmds };
        proof {
            lemma_sorted_index(r@);
        }
        r
    }

    /// The names, in index order.
    pub fn commands(&self) -> (r: &Vec<String>)
        ensures
            r@ == self.entries(),
    {
        &self.cmds
    }

    /// The first run of consecutive entries that start with the bytes
    /// `prefix`, as a half-open range; `None` when no entry does.
    pub fn prefix_range(&self, prefix: &[u8]) -> (r: Option<(usize, usize)>)
        ensures
            match r {
                Some((s, e)) => is_first_run(self@, prefix@, s as int, e as int),
                None => no_match(self@, prefix@),
            },
    {
        let n = self.cmds.len();
        let mut s: usize = 0;
        while s < n && !prefix_eq(&self.cmds[s], prefix)
            invariant
                n == self@.len(),
                0 <= s <= n,
                forall|j: int| 0 <= j < s ==> !name_matches(#[trigger] self@[j], prefix@),
            decreases n - s,
        {
            s = s + 1;
        }
        if s == n {
            return None;
        }
        let mut e: usize = s + 1;
        while e < n && prefix_eq(&self.cmds[e], prefix)
            invariant
                n == self@.len(),
                s < e <= n,
                forall|j: int| s <= j < e ==> name_matches(#[trigger] self@[j], prefix@),
            decreases n - e,
        {
            e = e + 1;
        }
        Some((s, e))
    }

    /// A cursor over the entries that start with the bytes `prefix` (their
    /// first run), or `None` when no entry does.
    pub fn for_prefix_bytes(&self, prefix: &[u8]) -> (r: Option<ExcerptIter<'_, String>>)
        ensures
            match r {
                Some(it) => {
                    &&& it.wf()
                    &&& it.subject() == self.entries()
                    &&& it.pos() is None
                    &&& is_first_run(self@, prefix@, it.start() as int, it.end() as int)
                },
                None => no_match(self@, prefix@),
            },
    {
        match self.prefix_range(prefix) {
            Some((s, e)) => match ExcerptIter::new(&self.cmds, s, e) {
                Ok(it) => Some(it),
                Err(_) => None,
            },
            None => None,
        }
    }

    /// A cursor over the entries that start with `prefix` (their first run),
    /// or `None` when no entry does.
    pub fn for_prefix(&self, prefix: &String) -> (r: Option<ExcerptIter<'_, String>>)
        ensures
            match r {
                Some(it) => {
                    &&& it.wf()
                    &&& it.subject() == self.entries()
                    &&& it.pos() is None
                    &&& is_first_run(self@, name_bytes(prefix@), it.start() as int, it.end() as int)
                },
                None => no_match(self@, name_bytes(prefix@)),
            },
    {
        self.for_prefix_bytes(prefix.as_str().as_bytes())
    }
}


/// The directories searched when no search path is set.
pub const FALLBACK_PATH: &'static str = "/bin:/usr/bin:/sbin:/usr/sbin";

/// The fields of `s` between occurrences of `sep`, as `str::split` gives
/// them (an empty `s` has one empty field).
pub open spec fn split_on(s: Seq<char>, sep: char) -> Seq<Seq<char>>
    decreases s.len(),
{
    if s.len() == 0 {
        seq![seq![]]
    } else {
        let rest = split_on(s.drop_last(), sep);
        if s.last() == sep {
            rest.push(seq![])
        } else {
            rest.update(rest.len() - 1, rest.last().push(s.last()))
        }
    }
}

proof fn lemma_split_on_nonempty(s: Seq<char>, sep: char)
    ensures
        split_on(s, sep).len() > 0,
    decreases s.len(),
{
    if s.len() > 0 {
        lemma_split_on_nonempty(s.drop_last(), sep);
    }
}

/// The directories named by a colon-separated search path, in order.
pub fn split_path(path: &str) -> (r: Vec<String>)
    ensures
        views(r@) == split_on(path@, ':'),
{
    let n = path.unicode_len();
    let mut fields: Vec<String> = Vec::new();
    let mut start: usize = 0;
    let mut i: usize = 0;
    assert(path@.subrange(0, 0) =~= seq![]);
    assert(views(fields@).push(path@.subrange(0, 0)) =~= seq![seq![]]);
    while i < n
        invariant
            n == path@.len(),
            0 <= start <= i <= n,
            views(fields@).push(path@.subrange(start as int, i as int)) == split_on(
                path@.subrange(0, i as int),
                ':',
            ),
        decreases n - i,
    {
        let ghost pre = path@.subrange(0, i as int);
        let ghost cur = path@.subrange(start as int, i as int);
        let ghost vf = views(fields@);
        let c = path.get_char(i);
        assert(path@.subrange(0, i + 1).drop_last() =~= pre);
        assert(path@.subrange(0, i + 1).last() == c);
        proof {
            lemma_split_on_nonempty(pre, ':');
        }
        if c == ':' {
            fields.push(path.substring_char(start, i).to_owned());
            assert(views(fields@) =~= vf.push(cur));
            start = i + 1;
            assert(path@.subrange(start as int, i + 1) =~= seq![]);
            assert(split_on(path@.subrange(0, i + 1), ':') =~= vf.push(cur).push(seq![]));
        } else {
            assert(path@.subrange(start as int, i + 1) =~= cur.push(c));
            assert(split_on(path@.subrange(0, i + 1), ':') =~= vf.push(cur).update(
                vf.len() as int,
                cur.push(c),
            ));
            assert(vf.push(cur).update(vf.len() as int, cur.push(c)) =~= vf.push(cur.push(c)));
        }
        i = i + 1;
    }
    let ghost vf = views(fields@);
    fields.push(path.substring_char(start, n).to_owned());
    assert(views(fields@) =~= vf.push(path@.subrange(start as int, n as int)));
    assert(path@.subrange(0, n as int) =~= path@);
    fields
}

/// The directories to scan for commands: those of the search path when it
/// is set, else those of `FALLBACK_PATH`.
pub fn search_dirs(path: Option<String>) -> (r: Vec<String>)
    ensures
        views(r@) == split_on(
            match path {
                Some(p) => p@,
                None => FALLBACK_PATH@,
            },
            ':',
        ),
{
    match path {
        Some(p) => split_path(p.as_str()),
        None => split_path(FALLBACK_PATH),
    }
}

} // verus!
