//! The on-demand scan: one entry per probed host, joined into a report with an
//! elapsed-time footer.

use vstd::prelude::*;
use crate::probe::ProbeRun;
use crate::text::{
    decimal, digit_char, digit_of, is_blank, is_blank_line, join, join_texts, lines, nonblank,
    push_char, push_decimal, push_text, split_lines,
};

verus! {

/// One host of a scan round, with what its probe gave.
#[derive(Clone, Debug, PartialEq, Eq)]
pub struct HostProbe {
    pub host: String,
    pub run: ProbeRun,
}

/// The aggregate of one scan round: an entry per host, in the order of the
/// hosts, and the time the round took.
#[derive(Clone, Debug, PartialEq, Eq)]
pub struct ScanReport {
    pub entries: Vec<String>,
    pub elapsed_millis: u64,
}

/// The raw text for one host: a header that names the host, then what the
/// probe printed, or the diagnostic of a probe that failed.
pub open spec fn scan_line(host: Seq<char>, run: ProbeRun) -> Seq<char> {
    match run {
        ProbeRun::Exited { success, stdout, stderr } => if success {
            "Host "@ + host + ": "@ + stdout@
        } else {
            "Host "@ + host + " failed: "@ + stderr@
        },
        ProbeRun::SpawnFailed { error } => "PING FAILED TO HOST -> "@ + host + ", error -> "@
            + error@,
    }
}

/// All lines but the first.
pub open spec fn after_first(ls: Seq<Seq<char>>) -> Seq<Seq<char>> {
    if ls.len() == 0 {
        ls
    } else {
        ls.drop_first()
    }
}

/// The report entry of one host. Blank lines go. A probe that succeeded also
/// loses its first line, the header; a probe that failed keeps it, so that the
/// entry names the host and says that it failed.
pub open spec fn scan_entry(host: Seq<char>, run: ProbeRun) -> Seq<char> {
    let kept = nonblank(lines(scan_line(host, run)));
    if run.succeeded() {
        join(after_first(kept), seq!['\n'])
    } else {
        join(kept, seq!['\n'])
    }
}

/// The entries of a round: that of each host, in order.
pub open spec fn scan_entries(results: Seq<HostProbe>) -> Seq<Seq<char>> {
    Seq::new(results.len(), |i: int| scan_entry(results[i].host@, results[i].run))
}

/// Hundredths of a second in a number of milliseconds, rounded to the nearest,
/// halves upwards.
pub open spec fn hundredths(millis: nat) -> nat {
    (millis + 5) / 10
}

/// The last line of a report: the elapsed time in seconds, with two decimals.
pub open spec fn footer(millis: nat) -> Seq<char> {
    let h = hundredths(millis);
    "Nmap scan finnished in "@ + decimal(h / 100) + seq![
        '.',
        digit_char(((h % 100) / 10) as int),
        digit_char((h % 10) as int),
    ] + " seconds"@
}

/// The entries one after another, each followed by an empty line.
pub open spec fn body(entries: Seq<Seq<char>>) -> Seq<char>
    decreases entries.len(),
{
    if entries.len() == 0 {
        Seq::empty()
    } else {
        body(entries.drop_last()) + entries.last() + seq!['\n', '\n']
    }
}

/// The whole report as text: the body, then the footer.
pub open spec fn report_text(entries: Seq<Seq<char>>, millis: nat) -> Seq<char> {
    body(entries) + footer(millis)
}

/// The lines that are not blank.
pub fn drop_blank_lines(ls: &Vec<String>) -> (kept: Vec<String>)
    ensures
        kept.deep_view() == nonblank(ls.deep_view()),
{
    let mut kept: Vec<String> = Vec::new();
    let mut i: usize = 0;
    assert(ls.deep_view().take(0) == Seq::<Seq<char>>::empty());
    while i < ls.len()
        invariant
            i <= ls.len(),
            kept.deep_view() == nonblank(ls.deep_view().take(i as int)),
        decreases ls.len() - i,
    {
        let ghost done = ls.deep_view().take(i as int);
        let ghost next = ls.deep_view().take(i + 1);
        proof {
            assert(next.drop_last() == done);
            assert(next.last() == ls@[i as int]@);
        }
        if !is_blank_line(ls[i].as_str()) {
            let ghost before = kept.deep_view();
            kept.push(ls[i].clone());
            assert(kept.deep_view() == before.push(ls@[i as int]@));
        }
        i += 1;
    }
    assert(ls.deep_view().take(ls.len() as int) == ls.deep_view());
    kept
}

/// The raw text for one host.
pub fn scan_line_text(host: &str, run: &ProbeRun) -> (line: String)
    ensures
        line@ == scan_line(host@, *run),
{
    let mut line = String::new();
    match run {
        ProbeRun::Exited { success, stdout, stderr } => {
            push_text(&mut line, "Host ");
            push_text(&mut line, host);
            if *success {
                push_text(&mut line, ": ");
                push_text(&mut line, stdout.as_str());
            } else {
                push_text(&mut line, " failed: ");
                push_text(&mut line, stderr.as_str());
            }
        },
        ProbeRun::SpawnFailed { error } => {
            push_text(&mut line, "PING FAILED TO HOST -> ");
            push_text(&mut line, host);
            push_text(&mut line, ", error -> ");
            push_text(&mut line, error.as_str());
        },
    }
    assert(line@ == scan_line(host@, *run));
    line
}

/// The report entry of one host.
pub fn scan_entry_text(host: &str, run: &ProbeRun) -> (entry: String)
    ensures
        entry@ == scan_entry(host@, *run),
{
    let line = scan_line_text(host, run);
    let ls = split_lines(line.as_str());
    let mut kept = drop_blank_lines(&ls);
    if run.has_succeeded() && kept.len() > 0 {
        let ghost before = kept.deep_view();
        kept.remove(0);
        assert(kept.deep_view() == before.drop_first());
    }
    proof {
        reveal_strlit("\n");
        assert("\n"@ == seq!['\n']);
    }
    join_texts(&kept, "\n")
}

/// Builds the report of a round from each host and what its probe gave: one
/// entry per host, in the order given, whatever the probes did.
pub fn assemble(results: &Vec<HostProbe>, elapsed_millis: u64) -> (report: ScanReport)
    ensures
        report.entries.len() == results.len(),
        report.entries.deep_view() == scan_entries(results@),
        report.elapsed_millis == elapsed_millis,
{
    let mut entries: Vec<String> = Vec::new();
    let mut i: usize = 0;
    while i < results.len()
        invariant
            i <= results.len(),
            entries.deep_view() == scan_entries(results@).take(i as int),
        decreases results.len() - i,
    {
        let entry = scan_entry_text(results[i].host.as_str(), &results[i].run);
        let ghost before = entries.deep_view();
        entries.push(entry);
        assert(entries.deep_view() == before.push(scan_entries(results@)[i as int]));
        i += 1;
    }
    assert(scan_entries(results@).take(results.len() as int) == scan_entries(results@));
    ScanReport { entries, elapsed_millis }
}

impl ScanReport {
    /// The report as one text: every entry followed by an empty line, then
    /// the footer with the elapsed time.
    pub fn render(&self) -> (text: String)
        ensures
            text@ == report_text(self.entries.deep_view(), self.elapsed_millis as nat),
    {
        let mut text = String::new();
        let mut i: usize = 0;
        assert(self.entries.deep_view().take(0) == Seq::<Seq<char>>::empty());
        while i < self.entries.len()
            invariant
                i <= self.entries.len(),
                text@ == body(self.entries.deep_view().take(i as int)),
            decreases self.entries.len() - i,
        {
            let ghost done = self.entries.deep_view().take(i as int);
            let ghost next = self.entries.deep_view().take(i + 1);
            proof {
                assert(next.drop_last() == done);
                assert(next.last() == self.entries@[i as int]@);
            }
            push_text(&mut text, self.entries[i].as_str());
            push_char(&mut text, '\n');
            push_char(&mut text, '\n');
            assert(text@ == body(done) + next.last() + seq!['\n', '\n']);
            i += 1;
        }
        assert(self.entries.deep_view().take(self.entries.len() as int)
            == self.entries.deep_view());
        let ghost start = text@;
        let rounded: u64 = self.elapsed_millis / 10 + if self.elapsed_millis % 10 >= 5 {
            1
        } else {
            0
        };
        assert(rounded == hundredths(self.elapsed_millis as nat));
        push_text(&mut text, "Nmap scan finnished in ");
        push_decimal(&mut text, rounded / 100);
        push_char(&mut text, '.');
        push_char(&mut text, digit_of((rounded % 100) / 10));
        push_char(&mut text, digit_of(rounded % 10));
        push_text(&mut text, " seconds");
        assert(text@ == start + footer(self.elapsed_millis as nat));
        text
    }
}

/// The first of the lines that are not blank is the first line, when that one
/// is not blank.
pub proof fn lemma_nonblank_first(ls: Seq<Seq<char>>)
    requires
        ls.len() > 0,
        !is_blank(ls[0]),
    ensures
        nonblank(ls).len() > 0,
        nonblank(ls)[0] == ls[0],
    decreases ls.len(),
{
    let init = ls.drop_last();
    if ls.len() > 1 {
        assert(init[0] == ls[0]);
        lemma_nonblank_first(init);
        assert(nonblank(init).push(ls.last())[0] == nonblank(init)[0]);
    } else {
        assert(nonblank(init) == Seq::<Seq<char>>::empty());
        assert(ls.last() == ls[0]);
        assert(nonblank(ls) == Seq::<Seq<char>>::empty().push(ls[0]));
    }
}

/// A joined text begins with its first part.
pub proof fn lemma_join_first(parts: Seq<Seq<char>>, sep: Seq<char>)
    requires
        parts.len() > 0,
    ensures
        join(parts, sep).len() >= parts[0].len(),
        forall|j: int| 0 <= j < parts[0].len() ==> join(parts, sep)[j] == parts[0][j],
    decreases parts.len(),
{
    if parts.len() > 1 {
        let init = parts.drop_last();
        assert(init[0] == parts[0]);
        lemma_join_first(init, sep);
    }
}

/// A report has one entry for each host of the round, whatever the probes
/// did. The entry of a host whose probe failed is never empty: it begins with
/// the first line of the failure text, the line that names the host and says
/// that the probe failed.
pub proof fn every_host_is_accounted_for(results: Seq<HostProbe>, at: int)
    requires
        0 <= at < results.len(),
    ensures
        scan_entries(results).len() == results.len(),
        scan_entries(results)[at] == scan_entry(results[at].host@, results[at].run),
        !results[at].run.succeeded() ==> {
            let raw = scan_line(results[at].host@, results[at].run);
            &&& lines(raw).len() > 0
            &&& lines(raw)[0].len() > 0
            &&& lines(raw)[0].is_prefix_of(scan_entries(results)[at])
        },
{
    let host = results[at].host@;
    let run = results[at].run;
    if !run.succeeded() {
        let raw = scan_line(host, run);
        reveal_strlit("Host ");
        reveal_strlit("PING FAILED TO HOST -> ");
        assert(raw.len() > 0 && (raw[0] == 'H' || raw[0] == 'P')) by {
            match run {
                ProbeRun::Exited { success, stdout, stderr } => {
                    assert(raw == "Host "@ + host + " failed: "@ + stderr@);
                    assert(raw[0] == "Host "@[0]);
                },
                ProbeRun::SpawnFailed { error } => {
                    assert(raw == "PING FAILED TO HOST -> "@ + host + ", error -> "@ + error@);
                    assert(raw[0] == "PING FAILED TO HOST -> "@[0]);
                },
            }
        }
        crate::text::lemma_line_end_bounds(raw);
        let n = crate::text::line_end(raw);
        assert(n >= 1);
        let ls = lines(raw);
        let first = ls[0];
        assert(first.len() > 0 && first[0] == raw[0]) by {
            if n < raw.len() {
                let cut = raw.take(n);
                assert(cut[0] == raw[0]);
                assert(ls == seq![crate::text::strip_cr(cut)] + lines(raw.skip(n + 1)));
                if cut.len() > 0 && cut.last() == '\r' {
                    assert(cut.len() >= 2);
                    assert(cut.drop_last()[0] == cut[0]);
                }
            } else {
                assert(ls == seq![raw]);
            }
        }
        assert(!is_blank(first)) by {
            assert(!crate::text::is_blank_char(first[0]));
        }
        lemma_nonblank_first(ls);
        let kept = nonblank(ls);
        lemma_join_first(kept, seq!['\n']);
        let entry = join(kept, seq!['\n']);
        assert(first =~= entry.subrange(0, first.len() as int));
    }
}

} // verus!
