//! Session names from `session_index.jsonl`, read from its end: the latest entry with a
//! non-blank name wins for each session.
use vstd::prelude::*;
use vstd::utf8::{decode_utf8, valid_utf8};
use crate::text::{chars_of, string_of, trim, trim_chars};

verus! {

/// How many bytes of the index file are read at a time, from its end.
pub const READ_CHUNK_SIZE: usize = 8192;

/// `String::from_utf8(bytes).ok()`: the text the bytes encode, when they are valid UTF-8.
#[verifier::external_body]
fn decode_utf8_bytes(bytes: Vec<u8>) -> (r: Option<String>)
    ensures
        r is Some == valid_utf8(bytes@),
        r matches Some(s) ==> s@ == decode_utf8(bytes@),
{
    String::from_utf8(bytes).ok()
}

/// `s` in reverse order.
pub open spec fn reversed<T>(s: Seq<T>) -> Seq<T> {
    Seq::new(s.len(), |i: int| s[s.len() - 1 - i])
}

/// The bytes `d` split at their newlines: the segments that follow a newline, the last
/// first, and the segment before the first newline (all of `d` when there is none).
pub open spec fn split_rev(d: Seq<u8>) -> (Seq<Seq<u8>>, Seq<u8>)
    decreases d.len(),
{
    if d.len() == 0 {
        (Seq::empty(), Seq::empty())
    } else {
        let r = split_rev(d.drop_first());
        if d[0] == 10 {
            (r.0.push(r.1), Seq::empty())
        } else {
            (r.0, seq![d[0]] + r.1)
        }
    }
}

/// `t` without one trailing carriage return.
pub open spec fn without_cr(t: Seq<char>) -> Seq<char> {
    if t.len() > 0 && t.last() == '\r' {
        t.drop_last()
    } else {
        t
    }
}

/// The text of one line of the index: valid UTF-8, without a trailing carriage return,
/// trimmed, and not blank.
pub open spec fn line_text(line: Seq<u8>) -> Option<Seq<char>> {
    if valid_utf8(line) && trim(without_cr(decode_utf8(line))).len() > 0 {
        Some(trim(without_cr(decode_utf8(line))))
    } else {
        None
    }
}

/// The texts of the lines that have one, in the order of `lines`.
pub open spec fn line_texts(lines: Seq<Seq<u8>>) -> Seq<Seq<char>>
    decreases lines.len(),
{
    if lines.len() == 0 {
        Seq::empty()
    } else {
        let rest = line_texts(lines.drop_last());
        match line_text(lines.last()) {
            Some(t) => rest.push(t),
            None => rest,
        }
    }
}

/// The views of some strings.
pub open spec fn views(v: Seq<String>) -> Seq<Seq<char>> {
    v.map_values(|s: String| s@)
}

/// The text of a line given by its bytes.
fn text_of_line(line: Vec<u8>) -> (r: Option<String>)
    ensures
        match r {
            Some(s) => line_text(line@) == Some(s@),
            None => line_text(line@) is None,
        },
{
    let ghost bytes = line@;
    match decode_utf8_bytes(line) {
        None => None,
        Some(s) => {
            let mut t = chars_of(s.as_str());
            if t.len() > 0 && t[t.len() - 1] == '\r' {
                t.pop();
            }
            assert(t@ == without_cr(decode_utf8(bytes)));
            let trimmed = trim_chars(t.as_slice());
            if trimmed.len() == 0 {
                None
            } else {
                Some(string_of(trimmed.as_slice()))
            }
        },
    }
}

/// A reading of the index from its end, collecting names for a set of sessions.
pub struct ThreadNameScan {
    /// The bytes of the line being read, last byte first.
    line_rev: Vec<u8>,
    /// The sessions still without a name.
    unresolved: Vec<String>,
    /// The names found so far: session id and name.
    found: Vec<(String, String)>,
}

/// The keys of some pairs.
pub open spec fn keys_of(v: Seq<(String, String)>) -> Seq<Seq<char>> {
    v.map_values(|p: (String, String)| p.0@)
}

/// The map the pairs make.
pub open spec fn map_of(v: Seq<(String, String)>) -> Map<Seq<char>, Seq<char>>
    decreases v.len(),
{
    if v.len() == 0 {
        Map::empty()
    } else {
        map_of(v.drop_last()).insert(v.last().0@, v.last().1@)
    }
}

impl ThreadNameScan {
    /// The bytes of the line being read, in order.
    pub closed spec fn pending(&self) -> Seq<u8> {
        reversed(self.line_rev@)
    }

    /// The sessions still without a name.
    pub closed spec fn wanted(&self) -> Set<Seq<char>> {
        views(self.unresolved@).to_set()
    }

    /// The names found so far, by session id.
    pub closed spec fn names(&self) -> Map<Seq<char>, Seq<char>> {
        map_of(self.found@)
    }

    /// The scan's invariant: no session is wanted twice or named twice, and no named
    /// session is still wanted.
    pub closed spec fn wf(&self) -> bool {
        &&& forall|k: int| 0 <= k < self.line_rev@.len() ==> #[trigger] self.line_rev@[k] != 10
        &&& views(self.unresolved@).no_duplicates()
        &&& keys_of(self.found@).no_duplicates()
        &&& forall|i: int, j: int|
            0 <= i < self.unresolved@.len() && 0 <= j < self.found@.len() ==> (
            #[trigger] self.unresolved@[i])@ != (#[trigger] self.found@[j]).0@
    }

    /// A scan for the given session ids, before any byte is read.
    pub fn new(ids: &Vec<String>) -> (r: Self)
        ensures
            r.wf(),
            r.wanted() == views(ids@).to_set(),
            r.names() == Map::<Seq<char>, Seq<char>>::empty(),
            r.pending() == Seq::<u8>::empty(),
    {
        let mut unresolved: Vec<String> = Vec::new();
        let mut i: usize = 0;
        while i < ids.len()
            invariant
                i <= ids.len(),
                views(unresolved@).no_duplicates(),
                views(unresolved@).to_set() == views(ids@.take(i as int)).to_set(),
            decreases ids.len() - i,
        {
            let mut seen = false;
            let mut k: usize = 0;
            while k < unresolved.len()
                invariant
                    i < ids.len(),
                    k <= unresolved.len(),
                    seen == exists|m: int| 0 <= m < k && (#[trigger] unresolved@[m])@ == ids@[i as int]@,
                decreases unresolved.len() - k,
            {
                if unresolved[k] == ids[i] {
                    seen = true;
                }
                k += 1;
            }
            proof {
                assert(ids@.take(i + 1) == ids@.take(i as int).push(ids@[i as int]));
                assert(views(ids@.take(i + 1)) == views(ids@.take(i as int)).push(ids@[i as int]@));
                views(ids@.take(i as int)).lemma_push_to_set_commute(ids@[i as int]@);
            }
            if !seen {
                let ghost before = unresolved@;
                unresolved.push(ids[i].clone());
                proof {
                    assert(views(unresolved@) == views(before).push(ids@[i as int]@));
                    views(before).lemma_push_to_set_commute(ids@[i as int]@);
                    assert forall|a: int, b: int|
                        0 <= a < b < views(unresolved@).len() implies views(unresolved@)[a]
                        != views(unresolved@)[b] by {
                        if b == before.len() {
                            assert(views(unresolved@)[a] == before[a]@);
                        }
                    }
                }
            } else {
                proof {
                    let m = choose|m: int| 0 <= m < k && (#[trigger] unresolved@[m])@ == ids@[i as int]@;
                    assert(views(unresolved@)[m] == ids@[i as int]@);
                    assert(views(unresolved@).to_set().contains(ids@[i as int]@));
                    assert(views(unresolved@).to_set().insert(ids@[i as int]@) == views(unresolved@).to_set());
                }
            }
            i += 1;
        }
        assert(ids@.take(ids.len() as int) == ids@);
        let r = ThreadNameScan { line_rev: Vec::new(), unresolved, found: Vec::new() };
        assert(r.pending() == Seq::<u8>::empty());
        r
    }

    /// Whether every wanted session has its name.
    pub fn is_done(&self) -> (b: bool)
        requires
            self.wf(),
        ensures
            b == (self.wanted() == Set::<Seq<char>>::empty()),
    {
        proof {
            if self.unresolved.len() > 0 {
                assert(views(self.unresolved@)[0] == self.unresolved@[0]@);
                assert(views(self.unresolved@).contains(self.unresolved@[0]@));
                assert(self.wanted().contains(self.unresolved@[0]@));
            } else {
                assert(views(self.unresolved@) == Seq::<Seq<char>>::empty());
                assert(self.wanted() =~= Set::<Seq<char>>::empty());
            }
        }
        self.unresolved.len() == 0
    }

    /// Reads the chunk of the file that precedes everything read so far, and gives back the
    /// texts of the lines it completes, the latest first.
    pub fn feed_chunk(&mut self, chunk: &[u8]) -> (lines: Vec<String>)
        requires
            old(self).wf(),
        ensures
            final(self).wf(),
            final(self).pending() == split_rev(chunk@ + old(self).pending()).1,
            views(lines@) == line_texts(split_rev(chunk@ + old(self).pending()).0),
            final(self).wanted() == old(self).wanted(),
            final(self).names() == old(self).names(),
    {
        let ghost p0 = self.pending();
        let mut out: Vec<String> = Vec::new();
        let mut j: usize = chunk.len();
        proof {
            assert(chunk@.skip(chunk.len() as int) + p0 == p0);
            lemma_split_rev_no_newline(p0);
            assert(views(out@) == Seq::<Seq<char>>::empty());
        }
        while j > 0
            invariant
                j <= chunk.len(),
                views(out@) == line_texts(split_rev(chunk@.skip(j as int) + p0).0),
                reversed(self.line_rev@) == split_rev(chunk@.skip(j as int) + p0).1,
                forall|k: int| 0 <= k < self.line_rev@.len() ==> #[trigger] self.line_rev@[k] != 10,
                self.unresolved == old(self).unresolved,
                self.found == old(self).found,
            decreases j,
        {
            let b = chunk[j - 1];
            let ghost d = chunk@.skip(j as int) + p0;
            proof {
                assert(chunk@.skip(j - 1) + p0 == seq![b] + d);
                assert((seq![b] + d).drop_first() == d);
            }
            if b == 10 {
                let mut line: Vec<u8> = Vec::new();
                let mut k: usize = self.line_rev.len();
                while k > 0
                    invariant
                        k <= self.line_rev.len(),
                        line@ == reversed(self.line_rev@).take(self.line_rev.len() - k),
                    decreases k,
                {
                    let ghost before = line@;
                    line.push(self.line_rev[k - 1]);
                    proof {
                        let r = reversed(self.line_rev@);
                        assert(r.take(self.line_rev.len() - k + 1) == r.take(
                            self.line_rev.len() - k,
                        ).push(r[self.line_rev.len() - k]));
                    }
                    k -= 1;
                }
                assert(reversed(self.line_rev@).take(self.line_rev.len() as int) == reversed(
                    self.line_rev@,
                ));
                let ghost segs = split_rev(d).0;
                let ghost head = split_rev(d).1;
                let text = text_of_line(line);
                proof {
                    assert(segs.push(head).drop_last() == segs);
                    assert(segs.push(head).last() == head);
                }
                match text {
                    Some(t) => {
                        let ghost before = out@;
                        out.push(t);
                        assert(views(out@) == views(before).push(t@));
                    },
                    None => {},
                }
                self.line_rev.clear();
                assert(reversed(self.line_rev@) =~= Seq::<u8>::empty());
            } else {
                let ghost before = self.line_rev@;
                self.line_rev.push(b);
                assert(reversed(self.line_rev@) =~= seq![b] + reversed(before));
            }
            j -= 1;
        }
        assert(chunk@.skip(0) == chunk@);
        out
    }

    /// Reads the line before the first newline of the file, once the whole file has been
    /// read, and gives back its text.
    pub fn finish(&mut self) -> (line: Option<String>)
        requires
            old(self).wf(),
        ensures
            final(self).wf(),
            match line {
                Some(t) => line_text(old(self).pending()) == Some(t@),
                None => line_text(old(self).pending()) is None,
            },
            final(self).pending() == Seq::<u8>::empty(),
            final(self).wanted() == old(self).wanted(),
            final(self).names() == old(self).names(),
    {
        let mut line: Vec<u8> = Vec::new();
        let mut k: usize = self.line_rev.len();
        while k > 0
            invariant
                k <= self.line_rev.len(),
                line@ == reversed(self.line_rev@).take(self.line_rev.len() - k),
            decreases k,
        {
            line.push(self.line_rev[k - 1]);
            proof {
                let r = reversed(self.line_rev@);
                assert(r.take(self.line_rev.len() - k + 1) == r.take(self.line_rev.len() - k).push(
                    r[self.line_rev.len() - k],
                ));
            }
            k -= 1;
        }
        assert(reversed(self.line_rev@).take(self.line_rev.len() as int) == reversed(self.line_rev@));
        self.line_rev.clear();
        assert(reversed(self.line_rev@) =~= Seq::<u8>::empty());
        text_of_line(line)
    }
}

/// What offering an index entry (session id, name) does to the wanted sessions and the
/// names found: a wanted session with a non-blank name gets its trimmed name and is no
/// longer wanted; anything else changes nothing.
pub open spec fn offer_model(
    wanted: Set<Seq<char>>,
    names: Map<Seq<char>, Seq<char>>,
    entry: (Seq<char>, Seq<char>),
) -> (Set<Seq<char>>, Map<Seq<char>, Seq<char>>) {
    if trim(entry.1).len() > 0 && wanted.contains(entry.0) {
        (wanted.remove(entry.0), names.insert(entry.0, trim(entry.1)))
    } else {
        (wanted, names)
    }
}

/// Offering entries one after the other.
pub open spec fn offer_all(
    wanted: Set<Seq<char>>,
    names: Map<Seq<char>, Seq<char>>,
    entries: Seq<(Seq<char>, Seq<char>)>,
) -> (Set<Seq<char>>, Map<Seq<char>, Seq<char>>)
    decreases entries.len(),
{
    if entries.len() == 0 {
        (wanted, names)
    } else {
        let next = offer_model(wanted, names, entries[0]);
        offer_all(next.0, next.1, entries.drop_first())
    }
}

/// The trimmed name of the first entry for `id` whose name is not blank.
pub open spec fn first_named(entries: Seq<(Seq<char>, Seq<char>)>, id: Seq<char>) -> Option<
    Seq<char>,
>
    decreases entries.len(),
{
    if entries.len() == 0 {
        None
    } else if entries[0].0 == id && trim(entries[0].1).len() > 0 {
        Some(trim(entries[0].1))
    } else {
        first_named(entries.drop_first(), id)
    }
}

/// The names found for the wanted sessions among the entries: for each, the first entry
/// with a non-blank name.
pub open spec fn names_among(wanted: Set<Seq<char>>, entries: Seq<(Seq<char>, Seq<char>)>) -> Map<
    Seq<char>,
    Seq<char>,
> {
    Map::new(
        |k: Seq<char>| wanted.contains(k) && first_named(entries, k) is Some,
        |k: Seq<char>| first_named(entries, k)->0,
    )
}

proof fn lemma_offer_all(
    wanted: Set<Seq<char>>,
    names: Map<Seq<char>, Seq<char>>,
    entries: Seq<(Seq<char>, Seq<char>)>,
)
    requires
        forall|k: Seq<char>| #[trigger] wanted.contains(k) ==> !names.dom().contains(k),
    ensures
        offer_all(wanted, names, entries).1 =~= names.union_prefer_right(
            names_among(wanted, entries),
        ),
    decreases entries.len(),
{
    if entries.len() > 0 {
        let e = entries[0];
        let rest = entries.drop_first();
        let next = offer_model(wanted, names, e);
        assert forall|k: Seq<char>| #[trigger] next.0.contains(k) implies !next.1.dom().contains(
            k,
        ) by {}
        lemma_offer_all(next.0, next.1, rest);
        assert forall|k: Seq<char>| k != e.0 implies first_named(entries, k) == first_named(
            rest,
            k,
        ) by {}
    }
}

/// The law of the index: offering the entries latest first, each wanted session gets the
/// trimmed name of its latest entry whose name is not blank, and nothing else gets a name.
pub proof fn law_latest_non_blank_name_wins(
    wanted: Set<Seq<char>>,
    entries_latest_first: Seq<(Seq<char>, Seq<char>)>,
)
    ensures
        offer_all(wanted, Map::empty(), entries_latest_first).1 == names_among(
            wanted,
            entries_latest_first,
        ),
{
    lemma_offer_all(wanted, Map::empty(), entries_latest_first);
    assert(Map::<Seq<char>, Seq<char>>::empty().union_prefer_right(
        names_among(wanted, entries_latest_first),
    ) =~= names_among(wanted, entries_latest_first));
}

proof fn lemma_remove_to_set(s: Seq<Seq<char>>, k: int)
    requires
        s.no_duplicates(),
        0 <= k < s.len(),
    ensures
        s.remove(k).to_set() =~= s.to_set().remove(s[k]),
        s.remove(k).no_duplicates(),
{
    let r = s.remove(k);
    assert forall|x: Seq<char>| r.to_set().contains(x) <==> s.to_set().remove(s[k]).contains(x) by {
        if r.to_set().contains(x) {
            assert(r.contains(x));
            let i = choose|i: int| 0 <= i < r.len() && r[i] == x;
            if i < k {
                assert(s[i] == x);
            } else {
                assert(s[i + 1] == x);
            }
            assert(s.contains(x));
        }
        if s.to_set().remove(s[k]).contains(x) {
            assert(s.contains(x));
            let i = choose|i: int| 0 <= i < s.len() && s[i] == x;
            assert(i != k);
            if i < k {
                assert(r[i] == x);
            } else {
                assert(r[i - 1] == x);
            }
            assert(r.contains(x));
        }
    }
    assert forall|a: int, b: int| 0 <= a < b < r.len() implies r[a] != r[b] by {
        let a2 = if a < k { a } else { a + 1 };
        let b2 = if b < k { b } else { b + 1 };
        assert(r[a] == s[a2] && r[b] == s[b2]);
    }
}

/// Where `id` stands in `v`, if anywhere.
fn position_of(v: &Vec<String>, id: &str) -> (r: Option<usize>)
    ensures
        match r {
            Some(k) => k < v.len() && v@[k as int]@ == id@,
            None => forall|m: int| 0 <= m < v.len() ==> (#[trigger] v@[m])@ != id@,
        },
{
    let wanted = id.to_string();
    let mut k: usize = 0;
    while k < v.len()
        invariant
            k <= v.len(),
            wanted@ == id@,
            forall|m: int| 0 <= m < k ==> (#[trigger] v@[m])@ != id@,
        decreases v.len() - k,
    {
        if v[k] == wanted {
            return Some(k);
        }
        k += 1;
    }
    None
}

impl ThreadNameScan {
    /// Offers an index entry: a wanted session with a non-blank name gets its trimmed
    /// name and is no longer wanted; says whether that happened.
    pub fn offer(&mut self, id: &str, thread_name: &str) -> (taken: bool)
        requires
            old(self).wf(),
        ensures
            final(self).wf(),
            (final(self).wanted(), final(self).names()) == offer_model(
                old(self).wanted(),
                old(self).names(),
                (id@, thread_name@),
            ),
            taken == (trim(thread_name@).len() > 0 && old(self).wanted().contains(id@)),
            final(self).pending() == old(self).pending(),
    {
        let n = chars_of(thread_name);
        let trimmed = trim_chars(n.as_slice());
        if trimmed.len() == 0 {
            return false;
        }
        let pos = position_of(&self.unresolved, id);
        if pos.is_none() {
            proof {
                if self.wanted().contains(id@) {
                    assert(views(self.unresolved@).contains(id@));
                    let m = choose|m: int|
                        0 <= m < views(self.unresolved@).len() && views(self.unresolved@)[m]
                            == id@;
                    assert(self.unresolved@[m]@ == id@);
                }
            }
            return false;
        }
        let k = pos.unwrap();
        let ghost old_unresolved = self.unresolved@;
        let ghost old_found = self.found@;
        proof {
            assert(views(old_unresolved)[k as int] == id@);
            assert(views(old_unresolved).contains(id@));
            lemma_remove_to_set(views(old_unresolved), k as int);
            assert(views(old_unresolved).remove(k as int) == views(old_unresolved.remove(k as int)));
        }
        let removed = self.unresolved.remove(k);
        let name = string_of(trimmed.as_slice());
        self.found.push((removed, name));
        proof {
            assert(self.found@.drop_last() == old_found);
            assert(keys_of(self.found@) == keys_of(old_found).push(id@));
            assert forall|a: int, b: int|
                0 <= a < b < keys_of(self.found@).len() implies keys_of(self.found@)[a] != keys_of(
                self.found@,
            )[b] by {
                if b == old_found.len() {
                    assert(keys_of(self.found@)[a] == old_found[a].0@);
                    assert(old_unresolved[k as int]@ == id@);
                }
            }
            assert forall|i: int, j: int|
                0 <= i < self.unresolved@.len() && 0 <= j < self.found@.len() implies (
                #[trigger] self.unresolved@[i])@ != (#[trigger] self.found@[j]).0@ by {
                let i2 = if i < k { i } else { i + 1 };
                assert(self.unresolved@[i] == old_unresolved[i2]);
                if j == old_found.len() {
                    assert(views(old_unresolved)[i2] == old_unresolved[i2]@);
                    assert(views(old_unresolved)[k as int] == id@);
                } else {
                    assert(self.found@[j] == old_found[j]);
                }
            }
        }
        true
    }

    /// The names found, by session id (each id once).
    pub fn into_names(self) -> (r: Vec<(String, String)>)
        requires
            self.wf(),
        ensures
            map_of(r@) == self.names(),
            keys_of(r@).no_duplicates(),
    {
        self.found
    }
}

proof fn lemma_split_rev_no_newline(p: Seq<u8>)
    requires
        forall|k: int| 0 <= k < p.len() ==> #[trigger] p[k] != 10,
    ensures
        split_rev(p) == (Seq::<Seq<u8>>::empty(), p),
    decreases p.len(),
{
    if p.len() > 0 {
        let q = p.drop_first();
        assert forall|k: int| 0 <= k < q.len() implies #[trigger] q[k] != 10 by {
            assert(q[k] == p[k + 1]);
        }
        lemma_split_rev_no_newline(q);
        assert(seq![p[0]] + q == p);
    }
}

} // verus!
