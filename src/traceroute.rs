//! The traceroute side of the proxy: which tool and flags to use, the
//! one-time autodetection among candidates, the command line of a request,
//! and the clean-up of the tool's output.
use vstd::prelude::*;
use crate::route_text::at_line_start;
use crate::text::{decimal, decimal_chars, is_whitespace_char, is_ws, owned, push_all, push_str, text_chars, text_from_chars, trim, trim_chars};

verus! {

/// A tool and the flags it is run with.
#[derive(Debug)]
pub struct TracerouteConfig {
    pub bin: String,
    pub flags: Vec<String>,
}

pub open spec fn texts(v: Seq<String>) -> Seq<Seq<char>> {
    v.map_values(|s: String| s@)
}

impl View for TracerouteConfig {
    type V = (Seq<char>, Seq<Seq<char>>);

    open spec fn view(&self) -> (Seq<char>, Seq<Seq<char>>) {
        (self.bin@, texts(self.flags@))
    }
}

fn strings(items: &[&str]) -> (r: Vec<String>)
    ensures
        texts(r@) == items@.map_values(|s: &str| s@),
{
    let mut r: Vec<String> = Vec::new();
    let mut i: usize = 0;
    while i < items.len()
        invariant
            i <= items@.len(),
            texts(r@) =~= items@.map_values(|s: &str| s@).take(i as int),
        decreases items@.len() - i,
    {
        let ghost before = texts(r@);
        r.push(owned(items[i]));
        assert(texts(r@) =~= before.push(items@[i as int]@));
        i = i + 1;
        assert(texts(r@) =~= items@.map_values(|s: &str| s@).take(i as int));
    }
    assert(items@.map_values(|s: &str| s@).take(i as int) =~= items@.map_values(|s: &str| s@));
    r
}

fn config(bin: &str, flags: Vec<&str>) -> (r: TracerouteConfig)
    ensures
        r@ == (bin@, flags@.map_values(|s: &str| s@)),
{
    TracerouteConfig { bin: owned(bin), flags: strings(flags.as_slice()) }
}

/// The flag sets tried with a configured tool, most specific first.
pub open spec fn custom_variants(bin: Seq<char>) -> Seq<(Seq<char>, Seq<Seq<char>>)> {
    seq![
        (bin, seq!["-q1"@, "-N32"@, "-w1"@]),
        (bin, seq!["-q1"@, "-w1"@]),
        (bin, Seq::empty()),
    ]
}

/// The well-known tools: mtr, then traceroute in its Debian and FreeBSD
/// flavours, then bare traceroute.
pub open spec fn standard_tools() -> Seq<(Seq<char>, Seq<Seq<char>>)> {
    seq![
        ("mtr"@, seq!["-w"@, "-c1"@, "-Z1"@, "-G1"@, "-b"@]),
        ("traceroute"@, seq!["-q1"@, "-N32"@, "-w1"@]),
        ("traceroute"@, seq!["-q1"@, "-w1"@]),
        ("traceroute"@, Seq::empty()),
    ]
}

/// The candidates in the order they are probed: a configured tool with
/// configured flags alone; else a configured tool's variants, then the
/// well-known tools.
pub open spec fn candidate_list(bin: Option<Seq<char>>, flags: Seq<Seq<char>>) -> Seq<(Seq<char>, Seq<Seq<char>>)> {
    match bin {
        Some(b) => if flags.len() > 0 {
            seq![(b, flags)]
        } else {
            custom_variants(b) + standard_tools()
        },
        None => standard_tools(),
    }
}

pub open spec fn configs(v: Seq<TracerouteConfig>) -> Seq<(Seq<char>, Seq<Seq<char>>)> {
    v.map_values(|c: TracerouteConfig| c@)
}

/// The candidates to probe for the configured tool and flags.
pub fn probe_candidates(bin: &Option<String>, flags: &Vec<String>) -> (r: Vec<TracerouteConfig>)
    ensures
        configs(r@) == candidate_list(
            match bin {
                Some(b) => Some(b@),
                None => None,
            },
            texts(flags@),
        ),
{
    let mut r: Vec<TracerouteConfig> = Vec::new();
    if let Some(b) = bin {
        if flags.len() > 0 {
            let mut fl: Vec<String> = Vec::new();
            let mut i: usize = 0;
            while i < flags.len()
                invariant
                    i <= flags@.len(),
                    texts(fl@) =~= texts(flags@).take(i as int),
                decreases flags@.len() - i,
            {
                let ghost before = texts(fl@);
                fl.push(flags[i].clone());
                assert(texts(fl@) =~= before.push(flags@[i as int]@));
                i = i + 1;
                assert(texts(fl@) =~= texts(flags@).take(i as int));
            }
            assert(texts(flags@).take(i as int) =~= texts(flags@));
            r.push(TracerouteConfig { bin: b.clone(), flags: fl });
            assert(configs(r@) =~= seq![(b@, texts(flags@))]);
            return r;
        }
        let c1 = config(b.as_str(), vec!["-q1", "-N32", "-w1"]);
        assert(c1@.1 =~= seq!["-q1"@, "-N32"@, "-w1"@]);
        let c2 = config(b.as_str(), vec!["-q1", "-w1"]);
        assert(c2@.1 =~= seq!["-q1"@, "-w1"@]);
        let c3 = config(b.as_str(), Vec::new());
        assert(c3@.1 =~= Seq::<Seq<char>>::empty());
        r.push(c1);
        r.push(c2);
        r.push(c3);
        assert(configs(r@) =~= custom_variants(b@));
    }
    let ghost head = configs(r@);
    let t1 = config("mtr", vec!["-w", "-c1", "-Z1", "-G1", "-b"]);
    assert(t1@.1 =~= seq!["-w"@, "-c1"@, "-Z1"@, "-G1"@, "-b"@]);
    let t2 = config("traceroute", vec!["-q1", "-N32", "-w1"]);
    assert(t2@.1 =~= seq!["-q1"@, "-N32"@, "-w1"@]);
    let t3 = config("traceroute", vec!["-q1", "-w1"]);
    assert(t3@.1 =~= seq!["-q1"@, "-w1"@]);
    let t4 = config("traceroute", Vec::new());
    assert(t4@.1 =~= Seq::<Seq<char>>::empty());
    r.push(t1);
    r.push(t2);
    r.push(t3);
    r.push(t4);
    assert(configs(r@) =~= head + standard_tools());
    r
}


/// The index of the first candidate whose probe succeeded, from `i` on.
pub open spec fn first_success(outcomes: Seq<bool>, i: int) -> Option<int>
    decreases outcomes.len() - i,
{
    if i < 0 || i >= outcomes.len() {
        None
    } else if outcomes[i] {
        Some(i)
    } else {
        first_success(outcomes, i + 1)
    }
}

/// What the autodetection asks for next.
#[derive(Debug, Clone, Copy, PartialEq, Eq, Structural)]
pub enum DetectAction {
    /// Run the candidate at this index against the loopback address.
    Probe(usize),
    /// Detection is over: the adopted candidate, or none.
    Done(Option<usize>),
}

/// One-time autodetection: candidates are probed in order until one succeeds.
#[derive(Debug)]
pub struct Autodetect {
    count: usize,
    next: usize,
    chosen: Option<usize>,
}

impl Autodetect {
    /// The probes so far have all failed, and `next` is the one to run.
    pub closed spec fn tried(&self) -> nat {
        self.next as nat
    }

    pub closed spec fn chosen(&self) -> Option<usize> {
        self.chosen
    }

    pub closed spec fn count(&self) -> nat {
        self.count as nat
    }

    pub closed spec fn wf(&self) -> bool {
        self.next <= self.count && (self.chosen matches Some(i) ==> i == self.next && i < self.count)
    }

    /// Detection among `count` candidates, none probed yet.
    pub fn new(count: usize) -> (r: Self)
        ensures
            r.wf(),
            r.count() == count,
            r.tried() == 0,
            r.chosen() is None,
    {
        Autodetect { count, next: 0, chosen: None }
    }

    /// The next probe, or the outcome once one succeeded or all failed.
    pub fn next_action(&self) -> (r: DetectAction)
        requires
            self.wf(),
        ensures
            self.chosen() matches Some(i) ==> r == DetectAction::Done(Some(i)),
            self.chosen() is None && self.tried() < self.count() ==> r == DetectAction::Probe(
                self.tried() as usize,
            ),
            self.chosen() is None && self.tried() >= self.count() ==> r == DetectAction::Done(None),
    {
        match self.chosen {
            Some(i) => DetectAction::Done(Some(i)),
            None => if self.next < self.count {
                DetectAction::Probe(self.next)
            } else {
                DetectAction::Done(None)
            },
        }
    }

    /// Records the outcome of the probe that `next_action` asked for.
    pub fn record(&mut self, success: bool)
        requires
            old(self).wf(),
            old(self).chosen() is None,
            old(self).tried() < old(self).count(),
        ensures
            final(self).wf(),
            final(self).count() == old(self).count(),
            success ==> final(self).chosen() == Some(old(self).tried() as usize) && final(self).tried()
                == old(self).tried(),
            !success ==> final(self).chosen() is None && final(self).tried() == old(self).tried() + 1,
    {
        if success {
            self.chosen = Some(self.next);
        } else {
            self.next = self.next + 1;
        }
    }
}

/// The candidate that detection adopts when the probes come out as
/// `outcomes`, after `n` further probes from a state that has tried `tried`.
pub open spec fn detect_after(outcomes: Seq<bool>, tried: int, chosen: Option<int>, n: nat) -> (int, Option<int>)
    decreases n,
{
    if n == 0 || chosen is Some || tried >= outcomes.len() {
        (tried, chosen)
    } else if outcomes[tried] {
        detect_after(outcomes, tried, Some(tried), (n - 1) as nat)
    } else {
        detect_after(outcomes, tried + 1, None, (n - 1) as nat)
    }
}

/// Autodetection adopts the first candidate whose probe succeeds, or none when
/// every probe fails, and probes no candidate after the adopted one: however
/// often it is asked afterwards, the outcome stays.
pub proof fn lemma_detect_adopts_first_success(outcomes: Seq<bool>, extra: nat)
    ensures
        detect_after(outcomes, 0, None, (outcomes.len() + 1 + extra) as nat).1 == first_success(outcomes, 0),
{
    lemma_detect_from(outcomes, 0, (outcomes.len() + 1 + extra) as nat);
}

proof fn lemma_detect_from(outcomes: Seq<bool>, i: int, n: nat)
    requires
        0 <= i <= outcomes.len(),
        n > outcomes.len() - i,
    ensures
        detect_after(outcomes, i, None, n).1 == first_success(outcomes, i),
    decreases outcomes.len() - i,
{
    if i < outcomes.len() {
        if outcomes[i] {
            lemma_chosen_stays(outcomes, i, i, (n - 1) as nat);
        } else {
            lemma_detect_from(outcomes, i + 1, (n - 1) as nat);
        }
    }
}

proof fn lemma_chosen_stays(outcomes: Seq<bool>, tried: int, c: int, n: nat)
    ensures
        detect_after(outcomes, tried, Some(c), n) == (tried, Some(c)),
{
}

/// The command line of one run: the tool, its flags, then the target's words.
#[derive(Debug)]
pub struct Invocation {
    pub program: String,
    pub args: Vec<String>,
}

/// Why a traceroute request failed.
#[derive(Debug, Clone, Copy, PartialEq, Eq, Structural)]
pub enum TracerouteError {
    /// Detection found no working tool.
    NotSupported,
    /// The query is not valid shell syntax.
    InvalidArguments,
}

impl TracerouteError {
    pub fn message(&self) -> (r: String)
        ensures
            *self == TracerouteError::NotSupported ==> r@ == "Traceroute not supported on this node"@,
            *self == TracerouteError::InvalidArguments ==> r@
                == "Failed to parse args: invalid shell syntax"@,
    {
        match self {
            TracerouteError::NotSupported => owned("Traceroute not supported on this node"),
            TracerouteError::InvalidArguments => owned("Failed to parse args: invalid shell syntax"),
        }
    }
}

/// The words of `s` under shell quoting and escaping rules, or `None` when the
/// quoting is unbalanced.
pub uninterp spec fn shell_words(s: Seq<char>) -> Option<Seq<Seq<char>>>;

/// Relies on `shlex::split`: `s` split into words as a POSIX shell would, or
/// `None` on invalid syntax.
#[verifier::external_body]
fn shell_split(s: &str) -> (r: Option<Vec<String>>)
    ensures
        r matches Some(v) ==> shell_words(s@) == Some(texts(v@)),
        r is None ==> shell_words(s@) is None,
{
    shlex::split(s)
}

/// The configured extra flags, split as shell words: none when unset or when
/// the text is not valid shell syntax.
pub fn parse_traceroute_flags(flags: Option<&str>) -> (r: Vec<String>)
    ensures
        flags is None ==> r@.len() == 0,
        flags matches Some(f) ==> match shell_words(f@) {
            Some(w) => texts(r@) == w,
            None => r@.len() == 0,
        },
{
    match flags {
        None => Vec::new(),
        Some(f) => match shell_split(f) {
            Some(words) => words,
            None => Vec::new(),
        },
    }
}

/// The invocation of `cfg` on the target words `target`.
pub fn invocation_for(cfg: &TracerouteConfig, target: Vec<String>) -> (r: Invocation)
    ensures
        r.program@ == cfg.bin@,
        texts(r.args@) == texts(cfg.flags@) + texts(target@),
{
    let mut args: Vec<String> = Vec::new();
    let mut i: usize = 0;
    while i < cfg.flags.len()
        invariant
            i <= cfg.flags@.len(),
            texts(args@) =~= texts(cfg.flags@).take(i as int),
        decreases cfg.flags@.len() - i,
    {
        let ghost before = texts(args@);
        args.push(cfg.flags[i].clone());
        assert(texts(args@) =~= before.push(cfg.flags@[i as int]@));
        i = i + 1;
        assert(texts(args@) =~= texts(cfg.flags@).take(i as int));
    }
    assert(texts(cfg.flags@).take(i as int) =~= texts(cfg.flags@));
    let ghost head = texts(args@);
    let mut j: usize = 0;
    while j < target.len()
        invariant
            j <= target@.len(),
            texts(args@) =~= head + texts(target@).take(j as int),
        decreases target@.len() - j,
    {
        let ghost before = texts(args@);
        args.push(target[j].clone());
        assert(texts(args@) =~= before.push(target@[j as int]@));
        j = j + 1;
        assert(texts(args@) =~= head + texts(target@).take(j as int));
    }
    assert(texts(target@).take(j as int) =~= texts(target@));
    Invocation { program: cfg.bin.clone(), args }
}

/// The command line for a request: the detected tool with its flags, then the
/// query (trimmed) split into shell words. Every request uses the same
/// detected configuration; nothing is probed again.
pub fn plan_traceroute(detected: &Option<TracerouteConfig>, query: &str) -> (r: Result<Invocation, TracerouteError>)
    ensures
        detected is None ==> r == Err::<Invocation, TracerouteError>(TracerouteError::NotSupported),
        detected matches Some(c) ==> match shell_words(trim(query@)) {
            None => r == Err::<Invocation, TracerouteError>(TracerouteError::InvalidArguments),
            Some(w) => r matches Ok(inv) && inv.program@ == c.bin@ && texts(inv.args@) == texts(
                c.flags@,
            ) + w,
        },
{
    match detected {
        None => Err(TracerouteError::NotSupported),
        Some(c) => {
            let q = text_chars(query);
            let t = trim_chars(q.as_slice());
            let trimmed = text_from_chars(t.as_slice());
            match shell_split(trimmed.as_str()) {
                None => Err(TracerouteError::InvalidArguments),
                Some(words) => Ok(invocation_for(c, words)),
            }
        },
    }
}

/// A run's command line for logs: the words joined by single spaces.
pub open spec fn join_spaces(ws: Seq<Seq<char>>) -> Seq<char>
    decreases ws.len(),
{
    if ws.len() == 0 {
        Seq::empty()
    } else if ws.len() == 1 {
        ws[0]
    } else {
        join_spaces(ws.drop_last()) + seq![' '] + ws.last()
    }
}

/// `cmd`, `args` and `target` joined by single spaces.
pub fn args_to_string(cmd: &str, args: &[String], target: &[String]) -> (r: String)
    ensures
        r@ == join_spaces(seq![cmd@] + texts(args@) + texts(target@)),
{
    let ghost all = seq![cmd@] + texts(args@) + texts(target@);
    let mut out: Vec<char> = Vec::new();
    push_str(&mut out, cmd);
    assert(all.take(1) =~= seq![cmd@]);
    assert(out@ =~= join_spaces(all.take(1)));
    let mut i: usize = 0;
    while i < args.len()
        invariant
            i <= args@.len(),
            all == seq![cmd@] + texts(args@) + texts(target@),
            out@ == join_spaces(all.take(1 + i)),
        decreases args@.len() - i,
    {
        out.push(' ');
        push_str(&mut out, args[i].as_str());
        assert(all.take(2 + i).drop_last() =~= all.take(1 + i));
        assert(all[1 + i] == args@[i as int]@);
        i = i + 1;
        assert(out@ =~= join_spaces(all.take(1 + i)));
    }
    let mut j: usize = 0;
    while j < target.len()
        invariant
            j <= target@.len(),
            i == args@.len(),
            all == seq![cmd@] + texts(args@) + texts(target@),
            out@ == join_spaces(all.take(1 + i + j)),
        decreases target@.len() - j,
    {
        out.push(' ');
        push_str(&mut out, target[j].as_str());
        assert(all.take(2 + i + j).drop_last() =~= all.take(1 + i + j));
        assert(all[1 + i + j] == target@[j as int]@);
        j = j + 1;
        assert(out@ =~= join_spaces(all.take(1 + i + j)));
    }
    assert(all.take(1 + i + j) =~= all);
    text_from_chars(out.as_slice())
}


/// The first index from `i` on that is not whitespace, or the length.
pub open spec fn skip_ws(s: Seq<char>, i: int) -> int
    decreases s.len() - i,
{
    if i < 0 {
        0
    } else if i >= s.len() || !is_ws(s[i]) {
        if i >= s.len() { s.len() as int } else { i }
    } else {
        skip_ws(s, i + 1)
    }
}

pub open spec fn is_ascii_digit(c: char) -> bool {
    '0' <= c && c <= '9'
}

/// The first index from `i` on that is not an ASCII digit, or the length.
pub open spec fn skip_digits(s: Seq<char>, i: int) -> int
    decreases s.len() - i,
{
    if i < 0 {
        0
    } else if i >= s.len() || !is_ascii_digit(s[i]) {
        if i >= s.len() { s.len() as int } else { i }
    } else {
        skip_digits(s, i + 1)
    }
}

/// Where a hop that did not answer ends, when one starts at `i`: whitespace,
/// an optional hop number, whitespace, then `*` and a line break. Else -1.
pub open spec fn silent_hop_end(s: Seq<char>, i: int) -> int {
    let c = skip_ws(s, skip_digits(s, skip_ws(s, i)));
    if 0 <= c && c + 1 < s.len() && s[c] == '*' && s[c + 1] == '\n' {
        c + 2
    } else {
        -1
    }
}

/// The output from `i` on with every silent hop removed, and how many were.
pub open spec fn drop_silent_from(s: Seq<char>, i: int) -> (Seq<char>, nat)
    decreases s.len() - i,
{
    if i < 0 || i >= s.len() {
        (Seq::empty(), 0)
    } else if at_line_start(s, i) && silent_hop_end(s, i) > i {
        let rest = drop_silent_from(s, silent_hop_end(s, i));
        (rest.0, rest.1 + 1)
    } else {
        let rest = drop_silent_from(s, i + 1);
        (seq![s[i]] + rest.0, rest.1)
    }
}

/// The cleaned output: silent hops removed, trimmed, and a note of how many
/// hops did not respond when there were any.
pub open spec fn cleaned_output(s: Seq<char>) -> Seq<char> {
    let d = drop_silent_from(s, 0);
    if d.1 > 0 {
        trim(d.0) + "\n\n"@ + decimal(d.1) + " hops not responding."@
    } else {
        trim(d.0)
    }
}

fn skip_ws_from(s: &[char], i: usize) -> (r: usize)
    requires
        i <= s@.len(),
    ensures
        r as int == skip_ws(s@, i as int),
        i <= r <= s@.len(),
{
    let mut j = i;
    while j < s.len() && is_whitespace_char(s[j])
        invariant
            i <= j <= s@.len(),
            skip_ws(s@, j as int) == skip_ws(s@, i as int),
        decreases s@.len() - j,
    {
        j = j + 1;
    }
    j
}

fn skip_digits_from(s: &[char], i: usize) -> (r: usize)
    requires
        i <= s@.len(),
    ensures
        r as int == skip_digits(s@, i as int),
        i <= r <= s@.len(),
{
    let mut j = i;
    while j < s.len() && '0' <= s[j] && s[j] <= '9'
        invariant
            i <= j <= s@.len(),
            skip_digits(s@, j as int) == skip_digits(s@, i as int),
        decreases s@.len() - j,
    {
        j = j + 1;
    }
    j
}

fn silent_hop_at(s: &[char], i: usize) -> (r: Option<usize>)
    requires
        i <= s@.len(),
    ensures
        r matches Some(e) ==> e as int == silent_hop_end(s@, i as int) && e > i && e <= s@.len(),
        r is None ==> silent_hop_end(s@, i as int) <= i,
{
    let a = skip_ws_from(s, i);
    let b = skip_digits_from(s, a);
    let c = skip_ws_from(s, b);
    if c < s.len() && s.len() - c > 1 && s[c] == '*' && s[c + 1] == '\n' {
        Some(c + 2)
    } else {
        None
    }
}

/// Removes the hops that did not answer from a traceroute output, trims it,
/// and notes how many were removed.
pub fn clean_traceroute_output(output: &str) -> (r: String)
    ensures
        r@ == cleaned_output(output@),
{
    let s = text_chars(output);
    let n = s.len();
    let mut kept: Vec<char> = Vec::new();
    let mut skipped: usize = 0;
    let mut i: usize = 0;
    while i < n
        invariant
            i <= n == s@.len(),
            s@ == output@,
            skipped <= i,
            kept@ + drop_silent_from(s@, i as int).0 == drop_silent_from(s@, 0).0,
            skipped + drop_silent_from(s@, i as int).1 == drop_silent_from(s@, 0).1,
        decreases n - i,
    {
        if i == 0 || s[i - 1] == '\n' {
            match silent_hop_at(s.as_slice(), i) {
                Some(e) => {
                    skipped = skipped + 1;
                    i = e;
                    continue;
                },
                None => {},
            }
        }
        let ghost rest = drop_silent_from(s@, i + 1);
        assert(kept@.push(s@[i as int]) + rest.0 =~= kept@ + (seq![s@[i as int]] + rest.0));
        kept.push(s[i]);
        i = i + 1;
    }
    let t = trim_chars(kept.as_slice());
    assert(kept@ =~= drop_silent_from(s@, 0).0);
    if skipped > 0 {
        let mut out = t;
        push_str(&mut out, "\n\n");
        let digits = decimal_chars(skipped as u64);
        push_all(&mut out, digits.as_slice());
        push_str(&mut out, " hops not responding.");
        text_from_chars(out.as_slice())
    } else {
        text_from_chars(t.as_slice())
    }
}

/// What a request returns: the tool's output as is in raw mode, else cleaned.
pub fn finish_traceroute_output(output: &str, raw: bool) -> (r: String)
    ensures
        raw ==> r@ == output@,
        !raw ==> r@ == cleaned_output(output@),
{
    if raw {
        owned(output)
    } else {
        clean_traceroute_output(output)
    }
}

} // verus!
