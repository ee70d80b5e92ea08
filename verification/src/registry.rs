//! The host registry: which hosts are monitored, and whether each was last
//! seen online. A registry is a sequence of `(hostname, online)` pairs without
//! a repeated hostname, in the order in which the names first appeared.

use vstd::prelude::*;
use crate::text::{join, lines, join_texts, push_char, push_text, split_lines};

verus! {

/// One monitored host.
#[derive(Clone, Debug, PartialEq, Eq)]
pub struct HostEntry {
    pub hostname: String,
    pub online: bool,
}

impl View for HostEntry {
    type V = (Seq<char>, bool);

    open spec fn view(&self) -> (Seq<char>, bool) {
        (self.hostname@, self.online)
    }
}

impl DeepView for HostEntry {
    type V = (Seq<char>, bool);

    open spec fn deep_view(&self) -> (Seq<char>, bool) {
        (self.hostname@, self.online)
    }
}

/// A durable-storage read or write that failed, with the diagnostic it gave.
#[derive(Clone, Debug, PartialEq, Eq)]
pub struct PersistenceError {
    pub detail: String,
}

/// The registry of monitored hosts.
pub struct HostRegistry {
    entries: Vec<HostEntry>,
}

impl View for HostRegistry {
    type V = Seq<(Seq<char>, bool)>;

    closed spec fn view(&self) -> Seq<(Seq<char>, bool)> {
        self.entries.deep_view()
    }
}

/// The hostnames of the entries, in order.
pub open spec fn names(v: Seq<(Seq<char>, bool)>) -> Seq<Seq<char>> {
    Seq::new(v.len(), |i: int| v[i].0)
}

/// Whether some entry carries the hostname.
pub open spec fn has_host(v: Seq<(Seq<char>, bool)>, host: Seq<char>) -> bool {
    exists|i: int| 0 <= i < v.len() && (#[trigger] v[i]).0 == host
}

/// No hostname occurs in two entries.
pub open spec fn distinct(v: Seq<(Seq<char>, bool)>) -> bool {
    forall|i: int, j: int| 0 <= i < j < v.len() ==> (#[trigger] v[i]).0 != (#[trigger] v[j]).0
}

/// The online flag of `host`, if it is registered.
pub open spec fn flag_of(v: Seq<(Seq<char>, bool)>, host: Seq<char>) -> Option<bool>
    decreases v.len(),
{
    if v.len() == 0 {
        None
    } else if v[0].0 == host {
        Some(v[0].1)
    } else {
        flag_of(v.drop_first(), host)
    }
}

/// The entries without those of `host`; the others keep their order and flags.
pub open spec fn without(v: Seq<(Seq<char>, bool)>, host: Seq<char>) -> Seq<(Seq<char>, bool)>
    decreases v.len(),
{
    if v.len() == 0 {
        Seq::empty()
    } else if v.last().0 == host {
        without(v.drop_last(), host)
    } else {
        without(v.drop_last(), host).push(v.last())
    }
}

/// The entries with the flag of `host` set to `online`; nothing else changes.
pub open spec fn marked(v: Seq<(Seq<char>, bool)>, host: Seq<char>, online: bool) -> Seq<
    (Seq<char>, bool),
> {
    Seq::new(
        v.len(),
        |i: int|
            if v[i].0 == host {
                (v[i].0, online)
            } else {
                v[i]
            },
    )
}

/// Each line once, at the place of its first occurrence.
pub open spec fn dedup(ls: Seq<Seq<char>>) -> Seq<Seq<char>>
    decreases ls.len(),
{
    if ls.len() == 0 {
        Seq::empty()
    } else if dedup(ls.drop_last()).contains(ls.last()) {
        dedup(ls.drop_last())
    } else {
        dedup(ls.drop_last()).push(ls.last())
    }
}

/// Entries for the given hostnames, each flagged online.
pub open spec fn all_online(hosts: Seq<Seq<char>>) -> Seq<(Seq<char>, bool)> {
    Seq::new(hosts.len(), |i: int| (hosts[i], true))
}

/// What a line-oriented source holds as a registry: its lines without
/// repetition, each online.
pub open spec fn loaded(source: Seq<char>) -> Seq<(Seq<char>, bool)> {
    all_online(dedup(lines(source)))
}

/// What `add` appends to durable storage for a hostname.
pub open spec fn record_of(host: Seq<char>) -> Seq<char> {
    seq!['\n'] + host
}

/// What durable storage holds for a registry: its hostnames, one per line.
pub open spec fn stored_form(v: Seq<(Seq<char>, bool)>) -> Seq<char> {
    join(names(v), seq!['\n'])
}

/// How many entries carry the hostname.
pub open spec fn occurrences(v: Seq<(Seq<char>, bool)>, host: Seq<char>) -> nat
    decreases v.len(),
{
    if v.len() == 0 {
        0
    } else {
        let last: nat = if v.last().0 == host {
            1
        } else {
            0
        };
        occurrences(v.drop_last(), host) + last
    }
}

impl HostRegistry {
    /// The invariant of every registry: no hostname is registered twice.
    #[verifier::type_invariant]
    pub open spec fn wf(&self) -> bool {
        distinct(self@)
    }

    /// A registry without hosts.
    pub fn new() -> (r: HostRegistry)
        ensures
            r.wf(),
            r@ == Seq::<(Seq<char>, bool)>::empty(),
    {
        let r = HostRegistry { entries: Vec::new() };
        assert(r@ == Seq::<(Seq<char>, bool)>::empty());
        r
    }

    /// Reads a registry from a line-oriented source: one entry per distinct
    /// line, in the order of first occurrence, each online.
    pub fn load(source: &str) -> (r: HostRegistry)
        ensures
            r.wf(),
            r@ == loaded(source@),
    {
        let ls = split_lines(source);
        let mut entries: Vec<HostEntry> = Vec::new();
        let mut i: usize = 0;
        assert(ls.deep_view().take(0) == Seq::<Seq<char>>::empty());
        assert(entries.deep_view() == all_online(dedup(ls.deep_view().take(0))));
        while i < ls.len()
            invariant
                i <= ls.len(),
                ls.deep_view() == lines(source@),
                entries.deep_view() == all_online(dedup(ls.deep_view().take(i as int))),
            decreases ls.len() - i,
        {
            let ghost done = ls.deep_view().take(i as int);
            let ghost next = ls.deep_view().take(i + 1);
            let ghost line = ls@[i as int]@;
            let ghost before = entries.deep_view();
            proof {
                assert(next.drop_last() == done);
                assert(next.last() == line);
                let d = dedup(done);
                if has_host(before, line) {
                    let k = choose|k: int| 0 <= k < before.len() && (#[trigger] before[k]).0 == line;
                    assert(d[k] == line);
                }
                if d.contains(line) {
                    let k = choose|k: int| 0 <= k < d.len() && d[k] == line;
                    assert(before[k].0 == line);
                }
            }
            if position(&entries, ls[i].as_str()).is_none() {
                entries.push(HostEntry { hostname: ls[i].clone(), online: true });
                assert(entries.deep_view() == before.push((line, true)));
                assert(entries.deep_view() == all_online(dedup(next)));
            }
            i += 1;
        }
        proof {
            assert(ls.deep_view().take(ls.len() as int) == ls.deep_view());
            lemma_dedup(lines(source@));
            let d = dedup(lines(source@));
            let v = entries.deep_view();
            assert forall|a: int, b: int| 0 <= a < b < v.len() implies (#[trigger] v[a]).0 != (
            #[trigger] v[b]).0 by {
                assert(d[a] != d[b]);
            }
        }
        HostRegistry { entries }
    }

    /// Number of registered hosts.
    pub fn len(&self) -> (n: usize)
        ensures
            n == self@.len(),
    {
        self.entries.len()
    }

    /// Whether no host is registered.
    pub fn is_empty(&self) -> (b: bool)
        ensures
            b == (self@.len() == 0),
    {
        self.entries.len() == 0
    }

    /// Whether `host` is registered.
    pub fn contains(&self, host: &str) -> (b: bool)
        ensures
            b == has_host(self@, host@),
    {
        position(&self.entries, host).is_some()
    }

    /// The online flag of `host`: `None` when it is not registered.
    pub fn is_online(&self, host: &str) -> (flag: Option<bool>)
        ensures
            flag is Some <==> has_host(self@, host@),
            flag == flag_of(self@, host@),
    {
        proof {
            use_type_invariant(self);
        }
        match position(&self.entries, host) {
            Some(i) => {
                proof {
                    lemma_flag_of(self@, i as int);
                }
                Some(self.entries[i].online)
            },
            None => {
                proof {
                    lemma_flag_of_absent(self@, host@);
                }
                None
            },
        }
    }

    /// A point-in-time copy of the entries, in registry order.
    pub fn snapshot(&self) -> (copy: Vec<HostEntry>)
        ensures
            copy.deep_view() == self@,
    {
        let mut copy: Vec<HostEntry> = Vec::new();
        let mut i: usize = 0;
        while i < self.entries.len()
            invariant
                i <= self.entries.len(),
                copy.deep_view() == self@.take(i as int),
            decreases self.entries.len() - i,
        {
            let entry = HostEntry {
                hostname: self.entries[i].hostname.clone(),
                online: self.entries[i].online,
            };
            copy.push(entry);
            assert(copy.deep_view() == self@.take(i as int).push(self@[i as int]));
            i += 1;
        }
        assert(self@.take(self@.len() as int) == self@);
        copy
    }

    /// The registered hostnames, in registry order.
    pub fn hostnames(&self) -> (hosts: Vec<String>)
        ensures
            hosts.deep_view() == names(self@),
    {
        let mut hosts: Vec<String> = Vec::new();
        let mut i: usize = 0;
        while i < self.entries.len()
            invariant
                i <= self.entries.len(),
                hosts.deep_view() == names(self@).take(i as int),
            decreases self.entries.len() - i,
        {
            hosts.push(self.entries[i].hostname.clone());
            assert(hosts.deep_view() == names(self@).take(i as int).push(names(self@)[i as int]));
            i += 1;
        }
        assert(names(self@).take(self@.len() as int) == names(self@));
        hosts
    }

    /// Takes `host` out of the registry. Returns whether it was registered;
    /// a registry that does not hold it stays as it is.
    pub fn remove(&mut self, host: &str) -> (found: bool)
        ensures
            final(self).wf(),
            found == has_host(old(self)@, host@),
            final(self)@ == without(old(self)@, host@),
            !found ==> final(self)@ == old(self)@,
    {
        proof {
            use_type_invariant(&*self);
        }
        let ghost before = self@;
        match position(&self.entries, host) {
            Some(i) => {
                let mut entries: Vec<HostEntry> = Vec::new();
                core::mem::swap(&mut self.entries, &mut entries);
                entries.remove(i);
                proof {
                    lemma_without_remove(before, i as int);
                    lemma_without_props(before, host@);
                    assert(entries.deep_view() == before.remove(i as int));
                }
                core::mem::swap(&mut self.entries, &mut entries);
                true
            },
            None => {
                proof {
                    lemma_without_absent(before, host@);
                }
                false
            },
        }
    }

    /// Sets the online flag of `host`. Returns whether it was registered; the
    /// set of registered hosts never changes.
    pub fn mark(&mut self, host: &str, online: bool) -> (found: bool)
        ensures
            final(self).wf(),
            found == has_host(old(self)@, host@),
            final(self)@ == marked(old(self)@, host@, online),
            names(final(self)@) == names(old(self)@),
            !found ==> final(self)@ == old(self)@,
    {
        proof {
            use_type_invariant(&*self);
        }
        let ghost before = self@;
        let at = position(&self.entries, host);
        match at {
            Some(i) => {
                let entry = HostEntry { hostname: self.entries[i].hostname.clone(), online };
                let mut entries: Vec<HostEntry> = Vec::new();
                core::mem::swap(&mut self.entries, &mut entries);
                entries.set(i, entry);
                proof {
                    let after = entries.deep_view();
                    assert forall|j: int| 0 <= j < before.len() implies #[trigger] after[j]
                        == marked(before, host@, online)[j] by {
                        if j != i {
                            if j < i {
                                assert(before[j].0 != before[i as int].0);
                            } else {
                                assert(before[i as int].0 != before[j].0);
                            }
                        }
                    }
                    assert(after == marked(before, host@, online));
                    assert forall|a: int, b: int| 0 <= a < b < after.len() implies (
                    #[trigger] after[a]).0 != (#[trigger] after[b]).0 by {
                        assert(after[a].0 == before[a].0);
                        assert(after[b].0 == before[b].0);
                    }
                }
                core::mem::swap(&mut self.entries, &mut entries);
            },
            None => {
                assert(before == marked(before, host@, online));
            },
        }
        assert(names(self@) == names(before));
        at.is_some()
    }

    /// Replaces the registry by what durable storage holds.
    pub fn reload(&mut self, stored: &str)
        ensures
            final(self).wf(),
            final(self)@ == loaded(stored@),
    {
        *self = HostRegistry::load(stored);
    }

    /// The second step of adding a host, once its record was appended to
    /// durable storage and storage was read again: the registry becomes what
    /// storage holds. Where the append or the read failed, the registry stays
    /// as it was and the failure is handed back.
    pub fn finish_add(&mut self, stored: Result<String, PersistenceError>) -> (res: Result<
        (),
        PersistenceError,
    >)
        ensures
            final(self).wf(),
            stored matches Ok(text) ==> res is Ok && final(self)@ == loaded(text@),
            stored matches Err(e) ==> res == Err::<(), PersistenceError>(e) && final(self)@ == old(
                self,
            )@,
    {
        proof {
            use_type_invariant(&*self);
        }
        match stored {
            Ok(text) => {
                self.reload(text.as_str());
                Ok(())
            },
            Err(e) => Err(e),
        }
    }

    /// What durable storage is rewritten with after a removal: the remaining
    /// hostnames, one per line.
    pub fn storage_text(&self) -> (content: String)
        ensures
            content@ == stored_form(self@),
    {
        let hosts = self.hostnames();
        proof {
            reveal_strlit("\n");
            assert("\n"@ == seq!['\n']);
        }
        join_texts(&hosts, "\n")
    }
}

/// Position of the first entry of `host`, if there is one.
fn position(entries: &Vec<HostEntry>, host: &str) -> (at: Option<usize>)
    ensures
        at is Some <==> has_host(entries.deep_view(), host@),
        at matches Some(i) ==> i < entries.len() && entries@[i as int].hostname@ == host@
            && forall|j: int| 0 <= j < i ==> (#[trigger] entries.deep_view()[j]).0 != host@,
{
    let key = host.to_owned();
    let mut i: usize = 0;
    while i < entries.len()
        invariant
            i <= entries.len(),
            key@ == host@,
            forall|j: int| 0 <= j < i ==> (#[trigger] entries.deep_view()[j]).0 != host@,
        decreases entries.len() - i,
    {
        if entries[i].hostname == key {
            assert(entries.deep_view()[i as int].0 == host@);
            return Some(i);
        }
        i += 1;
    }
    None
}

/// The first step of adding a host: what is appended to durable storage, a
/// line feed and then the hostname.
pub fn append_record(host: &str) -> (record: String)
    ensures
        record@ == record_of(host@),
{
    let mut record = String::new();
    push_char(&mut record, '\n');
    push_text(&mut record, host);
    assert(Seq::<char>::empty().push('\n') == seq!['\n']);
    record
}

/// `dedup` keeps exactly the lines that occur, each once.
pub proof fn lemma_dedup(ls: Seq<Seq<char>>)
    ensures
        dedup(ls).no_duplicates(),
        forall|x: Seq<char>| dedup(ls).contains(x) <==> ls.contains(x),
    decreases ls.len(),
{
    if ls.len() > 0 {
        let init = ls.drop_last();
        let d = dedup(init);
        lemma_dedup(init);
        assert forall|x: Seq<char>| dedup(ls).contains(x) <==> ls.contains(x) by {
            if ls.contains(x) {
                let i = choose|i: int| 0 <= i < ls.len() && ls[i] == x;
                if i < init.len() {
                    assert(init[i] == x);
                    assert(init.contains(x));
                    assert(d.contains(x));
                    let k = choose|k: int| 0 <= k < d.len() && d[k] == x;
                    assert(dedup(ls)[k] == x);
                } else {
                    assert(x == ls.last());
                    if !d.contains(x) {
                        assert(dedup(ls)[d.len() as int] == x);
                    }
                }
            }
            if dedup(ls).contains(x) {
                let k = choose|k: int| 0 <= k < dedup(ls).len() && dedup(ls)[k] == x;
                if k < d.len() {
                    assert(d[k] == x);
                    assert(d.contains(x));
                    assert(init.contains(x));
                    let i = choose|i: int| 0 <= i < init.len() && init[i] == x;
                    assert(ls[i] == x);
                } else {
                    assert(ls[ls.len() - 1] == x);
                }
            }
        }
        if !d.contains(ls.last()) {
            assert forall|i: int, j: int|
                0 <= i < dedup(ls).len() && 0 <= j < dedup(ls).len() && i != j implies dedup(
                ls,
            )[i] != dedup(ls)[j] by {
                if i == d.len() {
                    assert(d[j] == dedup(ls)[j]);
                } else if j == d.len() {
                    assert(d[i] == dedup(ls)[i]);
                }
            }
        }
    }
}

/// In a registry without repeated names, taking out the entry at `i` takes out
/// its hostname.
pub proof fn lemma_without_remove(v: Seq<(Seq<char>, bool)>, i: int)
    requires
        distinct(v),
        0 <= i < v.len(),
    ensures
        without(v, v[i].0) == v.remove(i),
    decreases v.len(),
{
    let host = v[i].0;
    let init = v.drop_last();
    if i == v.len() - 1 {
        lemma_without_absent(init, host);
        assert(v.remove(i) == init);
    } else {
        assert(distinct(init)) by {
            assert forall|a: int, b: int| 0 <= a < b < init.len() implies (#[trigger] init[a]).0 != (
            #[trigger] init[b]).0 by {
                assert(init[a] == v[a] && init[b] == v[b]);
            }
        }
        assert(init[i] == v[i]);
        lemma_without_remove(init, i);
        assert(v[i].0 != v[v.len() - 1].0);
        assert(v.remove(i) == init.remove(i).push(v.last()));
    }
}

/// Taking out a hostname that no entry carries changes nothing.
pub proof fn lemma_without_absent(v: Seq<(Seq<char>, bool)>, host: Seq<char>)
    requires
        !has_host(v, host),
    ensures
        without(v, host) == v,
    decreases v.len(),
{
    if v.len() > 0 {
        let init = v.drop_last();
        assert(v[v.len() - 1].0 != host);
        assert(!has_host(init, host)) by {
            if has_host(init, host) {
                let k = choose|k: int| 0 <= k < init.len() && (#[trigger] init[k]).0 == host;
                assert(v[k].0 == host);
            }
        }
        lemma_without_absent(init, host);
        assert(init.push(v.last()) == v);
    }
}

/// Taking out `host` leaves every other hostname where it was: registered or not.
pub proof fn lemma_without_keeps(v: Seq<(Seq<char>, bool)>, host: Seq<char>, other: Seq<char>)
    requires
        other != host,
    ensures
        has_host(without(v, host), other) <==> has_host(v, other),
    decreases v.len(),
{
    if v.len() > 0 {
        let init = v.drop_last();
        let w = without(init, host);
        let r = without(v, host);
        lemma_without_keeps(init, host, other);
        if has_host(r, other) {
            let k = choose|k: int| 0 <= k < r.len() && (#[trigger] r[k]).0 == other;
            if k < w.len() {
                assert(w[k].0 == other);
                assert(has_host(init, other));
                let m = choose|m: int| 0 <= m < init.len() && (#[trigger] init[m]).0 == other;
                assert(v[m].0 == other);
            } else {
                assert(v[v.len() - 1].0 == other);
            }
        }
        if has_host(v, other) {
            let m = choose|m: int| 0 <= m < v.len() && (#[trigger] v[m]).0 == other;
            if m < init.len() {
                assert(init[m].0 == other);
                assert(has_host(w, other));
                let k = choose|k: int| 0 <= k < w.len() && (#[trigger] w[k]).0 == other;
                assert(r[k].0 == other);
            } else {
                assert(r[w.len() as int].0 == other);
            }
        }
    }
}

/// What `without` leaves: no entry of `host`, no more entries than before, and
/// no repeated hostname where there was none.
pub proof fn lemma_without_props(v: Seq<(Seq<char>, bool)>, host: Seq<char>)
    ensures
        !has_host(without(v, host), host),
        without(v, host).len() <= v.len(),
        distinct(v) ==> distinct(without(v, host)),
    decreases v.len(),
{
    if v.len() > 0 {
        let init = v.drop_last();
        let w = without(init, host);
        let r = without(v, host);
        lemma_without_props(init, host);
        let last = v.last();
        assert(!has_host(r, host)) by {
            if has_host(r, host) {
                let k = choose|k: int| 0 <= k < r.len() && (#[trigger] r[k]).0 == host;
                if k < w.len() {
                    assert(w[k].0 == host);
                }
            }
        }
        if distinct(v) {
            assert(distinct(init)) by {
                assert forall|a: int, b: int| 0 <= a < b < init.len() implies (
                #[trigger] init[a]).0 != (#[trigger] init[b]).0 by {
                    assert(init[a] == v[a] && init[b] == v[b]);
                }
            }
            if last.0 != host {
                assert forall|a: int, b: int| 0 <= a < b < r.len() implies (#[trigger] r[a]).0 != (
                #[trigger] r[b]).0 by {
                    if b == w.len() {
                        assert(w[a] == r[a]);
                        if w[a].0 == last.0 {
                            assert(has_host(w, last.0));
                            lemma_without_keeps(init, host, last.0);
                            let m = choose|m: int|
                                0 <= m < init.len() && (#[trigger] init[m]).0 == last.0;
                            assert(v[m].0 == v[v.len() - 1].0);
                        }
                    } else {
                        assert(w[a] == r[a] && w[b] == r[b]);
                    }
                }
            }
        }
    }
}

/// The flag that `flag_of` finds at the position of a hostname.
pub proof fn lemma_flag_of(v: Seq<(Seq<char>, bool)>, i: int)
    requires
        distinct(v),
        0 <= i < v.len(),
    ensures
        flag_of(v, v[i].0) == Some(v[i].1),
    decreases v.len(),
{
    if i > 0 {
        let rest = v.drop_first();
        assert(v[0].0 != v[i].0);
        assert(rest[i - 1] == v[i]);
        assert(distinct(rest)) by {
            assert forall|a: int, b: int| 0 <= a < b < rest.len() implies (#[trigger] rest[a]).0 != (
            #[trigger] rest[b]).0 by {
                assert(rest[a] == v[a + 1] && rest[b] == v[b + 1]);
            }
        }
        lemma_flag_of(rest, i - 1);
    }
}

/// `flag_of` finds nothing for a hostname that no entry carries.
pub proof fn lemma_flag_of_absent(v: Seq<(Seq<char>, bool)>, host: Seq<char>)
    requires
        !has_host(v, host),
    ensures
        flag_of(v, host) is None,
    decreases v.len(),
{
    if v.len() > 0 {
        let rest = v.drop_first();
        assert(v[0].0 != host);
        assert(!has_host(rest, host)) by {
            if has_host(rest, host) {
                let k = choose|k: int| 0 <= k < rest.len() && (#[trigger] rest[k]).0 == host;
                assert(v[k + 1].0 == host);
            }
        }
        lemma_flag_of_absent(rest, host);
    }
}

/// Where no hostname is repeated, a registered hostname occurs once and any
/// other not at all.
pub proof fn lemma_occurrences(v: Seq<(Seq<char>, bool)>, host: Seq<char>)
    requires
        distinct(v),
    ensures
        has_host(v, host) ==> occurrences(v, host) == 1,
        !has_host(v, host) ==> occurrences(v, host) == 0,
    decreases v.len(),
{
    if v.len() > 0 {
        let init = v.drop_last();
        assert(distinct(init)) by {
            assert forall|a: int, b: int| 0 <= a < b < init.len() implies (#[trigger] init[a]).0 != (
            #[trigger] init[b]).0 by {
                assert(init[a] == v[a] && init[b] == v[b]);
            }
        }
        lemma_occurrences(init, host);
        if has_host(init, host) {
            let k = choose|k: int| 0 <= k < init.len() && (#[trigger] init[k]).0 == host;
            assert(v[k].0 == host);
            assert(v[k].0 != v[v.len() - 1].0);
        } else if v.last().0 == host {
            assert(v[v.len() - 1].0 == host);
        } else {
            if has_host(v, host) {
                let k = choose|k: int| 0 <= k < v.len() && (#[trigger] v[k]).0 == host;
                assert(init[k].0 == host);
            }
        }
    }
}

/// Marking one host leaves the flag of every other host as it was.
pub proof fn lemma_marked_other(
    v: Seq<(Seq<char>, bool)>,
    marked_host: Seq<char>,
    online: bool,
    host: Seq<char>,
)
    requires
        host != marked_host,
    ensures
        flag_of(marked(v, marked_host, online), host) == flag_of(v, host),
    decreases v.len(),
{
    if v.len() > 0 {
        let m = marked(v, marked_host, online);
        assert(m.drop_first() == marked(v.drop_first(), marked_host, online));
        lemma_marked_other(v.drop_first(), marked_host, online, host);
    }
}

/// Marking a host sets its flag, if it is registered.
pub proof fn lemma_marked_same(v: Seq<(Seq<char>, bool)>, host: Seq<char>, online: bool)
    ensures
        has_host(v, host) ==> flag_of(marked(v, host, online), host) == Some(online),
        !has_host(v, host) ==> flag_of(marked(v, host, online), host) is None,
        has_host(marked(v, host, online), host) == has_host(v, host),
    decreases v.len(),
{
    let m = marked(v, host, online);
    if has_host(v, host) {
        let k = choose|k: int| 0 <= k < v.len() && (#[trigger] v[k]).0 == host;
        assert(m[k].0 == host);
    }
    if has_host(m, host) {
        let k = choose|k: int| 0 <= k < m.len() && (#[trigger] m[k]).0 == host;
        assert(v[k].0 == host);
    }
    if v.len() > 0 {
        assert(m.drop_first() == marked(v.drop_first(), host, online));
        lemma_marked_same(v.drop_first(), host, online);
        if v[0].0 != host {
            if has_host(v, host) {
                let k = choose|k: int| 0 <= k < v.len() && (#[trigger] v[k]).0 == host;
                assert(v.drop_first()[k - 1].0 == host);
            }
            if has_host(v.drop_first(), host) {
                let k = choose|k: int|
                    0 <= k < v.drop_first().len() && (#[trigger] v.drop_first()[k]).0 == host;
                assert(v[k + 1].0 == host);
            }
        }
    }
}

/// A source read as a registry holds each of its lines exactly once, and
/// nothing else, however often a line is repeated in the source.
pub proof fn loaded_holds_each_line_once(source: Seq<char>, host: Seq<char>)
    ensures
        distinct(loaded(source)),
        has_host(loaded(source), host) <==> lines(source).contains(host),
        lines(source).contains(host) ==> occurrences(loaded(source), host) == 1,
        !lines(source).contains(host) ==> occurrences(loaded(source), host) == 0,
{
    let d = dedup(lines(source));
    let r = loaded(source);
    lemma_dedup(lines(source));
    assert(distinct(r)) by {
        assert forall|a: int, b: int| 0 <= a < b < r.len() implies (#[trigger] r[a]).0 != (
        #[trigger] r[b]).0 by {
            assert(d[a] != d[b]);
        }
    }
    if has_host(r, host) {
        let k = choose|k: int| 0 <= k < r.len() && (#[trigger] r[k]).0 == host;
        assert(d[k] == host);
        assert(d.contains(host));
    }
    if lines(source).contains(host) {
        assert(d.contains(host));
        let k = choose|k: int| 0 <= k < d.len() && d[k] == host;
        assert(r[k].0 == host);
    }
    lemma_occurrences(r, host);
}

/// A hostname that was added to durable storage is registered exactly once
/// when storage is read again, whatever storage held before, duplicates
/// included. The hostname must hold something and no line feed: a text with a
/// line feed is more than one line, and an empty one is the end of the text.
pub proof fn added_host_is_loaded_once(stored: Seq<char>, host: Seq<char>)
    requires
        host.len() > 0,
        forall|j: int| 0 <= j < host.len() ==> host[j] != '\n',
    ensures
        distinct(loaded(stored + record_of(host))),
        has_host(loaded(stored + record_of(host)), host),
        occurrences(loaded(stored + record_of(host)), host) == 1,
{
    let text = stored + record_of(host);
    assert(text == stored + seq!['\n'] + host);
    crate::text::lemma_appended_line_is_last(stored, host);
    let ls = lines(text);
    assert(ls[ls.len() - 1] == host);
    assert(ls.contains(host));
    loaded_holds_each_line_once(text, host);
}

/// Removing a hostname that is not registered changes nothing, and after a
/// removal the hostname is not registered: a second removal finds nothing and
/// changes nothing.
pub proof fn removal_is_idempotent(v: Seq<(Seq<char>, bool)>, host: Seq<char>)
    ensures
        !has_host(v, host) ==> without(v, host) == v,
        !has_host(without(v, host), host),
        without(without(v, host), host) == without(v, host),
{
    if !has_host(v, host) {
        lemma_without_absent(v, host);
    }
    lemma_without_props(v, host);
    lemma_without_absent(without(v, host), host);
}

} // verus!
