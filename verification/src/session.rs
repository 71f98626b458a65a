//! Session supervisor: consent gate, session log and the notices of a session.
//!
//! The owner of the host machine is informed of each session by a console line, a line in
//! the append-only session log and, where they are switched on, a desktop notification.

use crate::calendar;
use crate::text;
use vstd::prelude::*;
use vstd::string::*;

verus! {

/// Decision returned by the consent gate.
#[derive(Debug, Clone, Copy, PartialEq, Eq, Structural)]
pub enum Consent {
    Allow,
    Deny,
}

/// What the consent gate does with a viewer.
#[derive(Debug, Clone, PartialEq, Eq)]
pub enum GateStep {
    /// Decided without asking.
    Decided(Consent),
    /// The operator is asked, with this prompt.
    Ask(String),
}

/// A desktop notification.
#[derive(Debug, Clone, PartialEq, Eq)]
pub struct Notice {
    pub summary: String,
    pub body: String,
}

/// What an event of a session is announced by.
#[derive(Debug, Clone, PartialEq, Eq)]
pub struct Announcement {
    /// The line for the terminal that started the host.
    pub console: String,
    /// The line for the session log.
    pub log: String,
    /// The desktop notification; `None` where notifications are switched off.
    pub notice: Option<Notice>,
}

/// The model of an announcement: console line, log line, and summary and body of the
/// notification.
pub struct AnnouncementModel {
    pub console: Seq<char>,
    pub log: Seq<char>,
    pub notice: Option<(Seq<char>, Seq<char>)>,
}

impl View for Announcement {
    type V = AnnouncementModel;

    open spec fn view(&self) -> AnnouncementModel {
        AnnouncementModel {
            console: self.console@,
            log: self.log@,
            notice: match self.notice {
                Some(n) => Some((n.summary@, n.body@)),
                None => None,
            },
        }
    }
}

/// Session-supervisor state.
pub struct Supervisor {
    /// The parts of the log's path, from the directory it hangs from to the file's name.
    log_path: Vec<String>,
    /// Peer IPs that the host operator has already approved for this run.
    approved: Vec<String>,
    /// Whether desktop notifications are sent.
    notifications_enabled: bool,
}

/// The texts of a vector of strings.
pub open spec fn texts(v: Seq<String>) -> Seq<Seq<char>> {
    v.map_values(|s: String| s@)
}

/// The directory that the log hangs from: the home directory, else the user profile, else
/// the working directory.
pub open spec fn log_base(home: Option<Seq<char>>, user_profile: Option<Seq<char>>) -> Seq<char> {
    match home {
        Some(dir) => dir,
        None => match user_profile {
            Some(dir) => dir,
            None => "."@,
        },
    }
}

/// The text of a string that may be missing.
pub open spec fn optional_text(s: Option<String>) -> Option<Seq<char>> {
    match s {
        Some(s) => Some(s@),
        None => None,
    }
}

/// The parts of the log's path.
pub open spec fn log_parts(home: Option<Seq<char>>, user_profile: Option<Seq<char>>) -> Seq<
    Seq<char>,
> {
    seq![log_base(home, user_profile), ".remote-lab"@, "sessions.log"@]
}

/// The question that the operator is asked.
pub open spec fn prompt_text(peer_ip: Seq<char>, timeout_secs: u64) -> Seq<char> {
    "[remote-lab] CONSENT: allow viewer from "@ + peer_ip + "? type `y` + Enter within "@
        + text::decimal(timeout_secs as nat) + " s to allow, anything else denies."@
}

/// Whether a line says yes: `y` or `yes` in letters of either case, white space aside.
pub open spec fn says_yes(line: Seq<char>) -> bool {
    let answer = text::lower_text(text::trimmed(line));
    answer == "y"@ || answer == "yes"@
}

/// The decision for what came back from the prompt: a line, or nothing where there was no
/// line to read or the time ran out.
pub open spec fn reply_consent(reply: Option<Seq<char>>) -> Consent {
    match reply {
        Some(line) => if says_yes(line) {
            Consent::Allow
        } else {
            Consent::Deny
        },
        None => Consent::Deny,
    }
}

/// Whether the operator is asked about a peer IP.
pub open spec fn gate_asks(approved: Set<Seq<char>>, peer_ip: Seq<char>, require: bool) -> bool {
    require && !approved.contains(peer_ip)
}

/// The approved peer IPs after a decision about one of them.
pub open spec fn approved_after(
    approved: Set<Seq<char>>,
    peer_ip: Seq<char>,
    consent: Consent,
) -> Set<Seq<char>> {
    if consent == Consent::Allow {
        approved.insert(peer_ip)
    } else {
        approved
    }
}

/// The time stamp of a clock reading.
pub open spec fn stamp(clock: Option<u64>) -> Seq<char> {
    calendar::iso_text(calendar::civil_at(calendar::clock_secs(clock)))
}

/// The announcement of a new session.
pub open spec fn connect_announced(peer: Seq<char>, clock: Option<u64>, notify: bool) ->
    AnnouncementModel {
    AnnouncementModel {
        console: "[remote-lab] viewer connected: "@ + peer,
        log: stamp(clock) + " CONNECT  "@ + peer,
        notice: if notify {
            Some(("Remote session started"@, "Viewer connected from "@ + peer))
        } else {
            None
        },
    }
}

/// The length of a session in seconds; zero where the clock was set back below its start.
pub open spec fn duration_secs(elapsed: Option<u64>) -> nat {
    match elapsed {
        Some(secs) => secs as nat,
        None => 0,
    }
}

/// The announcement of a session's end.
pub open spec fn disconnect_announced(
    peer: Seq<char>,
    elapsed: Option<u64>,
    clock: Option<u64>,
    notify: bool,
) -> AnnouncementModel {
    let secs = text::decimal(duration_secs(elapsed));
    AnnouncementModel {
        console: "[remote-lab] viewer disconnected: "@ + peer + " (duration "@ + secs + "s)"@,
        log: stamp(clock) + " DISCONN  "@ + peer + "  duration_s="@ + secs,
        notice: if notify {
            Some(
                (
                    "Remote session ended"@,
                    "Viewer from "@ + peer + " disconnected after "@ + secs + "s"@,
                ),
            )
        } else {
            None
        },
    }
}

/// The announcement of a refused connection.
pub open spec fn denied_announced(
    peer: Seq<char>,
    reason: Seq<char>,
    clock: Option<u64>,
    notify: bool,
) -> AnnouncementModel {
    AnnouncementModel {
        console: "[remote-lab] connection denied: "@ + peer + " ("@ + reason + ")"@,
        log: stamp(clock) + " DENIED   "@ + peer + "  reason="@ + reason,
        notice: if notify {
            Some(
                ("Remote session denied"@, "Blocked viewer from "@ + peer + " ("@ + reason + ")"@),
            )
        } else {
            None
        },
    }
}

/// Two texts, one after the other.
fn join2(a: &str, b: &str) -> (res: String)
    ensures
        res@ == a@ + b@,
{
    let mut out = a.to_owned();
    out.append(b);
    out
}

/// Five texts, one after the other.
fn join5(a: &str, b: &str, c: &str, d: &str, e: &str) -> (res: String)
    ensures
        res@ == a@ + b@ + c@ + d@ + e@,
{
    let mut out = a.to_owned();
    out.append(b);
    out.append(c);
    out.append(d);
    out.append(e);
    out
}

/// The parts of the log's path for the values of the variables `HOME` and `USERPROFILE`.
pub fn default_log_path(home: Option<String>, user_profile: Option<String>) -> (res: Vec<String>)
    ensures
        texts(res@) == log_parts(optional_text(home), optional_text(user_profile)),
{
    let base: String = match home {
        Some(dir) => dir,
        None => match user_profile {
            Some(dir) => dir,
            None => ".".to_owned(),
        },
    };
    let mut parts: Vec<String> = Vec::new();
    parts.push(base);
    parts.push(".remote-lab".to_owned());
    parts.push("sessions.log".to_owned());
    assert(texts(parts@) =~= log_parts(optional_text(home), optional_text(user_profile)));
    parts
}

/// The decision for what came back from the prompt.
pub fn prompt_decision(reply: &Option<String>) -> (res: Consent)
    ensures
        res == reply_consent(optional_text(*reply)),
{
    match reply {
        Some(line) => {
            let chars: Vec<char> = text::chars_of(line.as_str());
            let answer: Vec<char> = text::lower_chars(&text::trim_chars(&chars));
            let y: Vec<char> = text::chars_of("y");
            let yes: Vec<char> = text::chars_of("yes");
            if text::same_chars(&answer, &y) || text::same_chars(&answer, &yes) {
                Consent::Allow
            } else {
                Consent::Deny
            }
        },
        None => Consent::Deny,
    }
}

impl Supervisor {
    /// No peer IP is recorded twice.
    pub closed spec fn wf(&self) -> bool {
        forall|i: int, j: int|
            0 <= i < j < self.approved@.len() ==> self.approved@[i]@ != self.approved@[j]@
    }

    /// The peer IPs that the operator has approved.
    pub closed spec fn approved_ips(&self) -> Set<Seq<char>> {
        texts(self.approved@).to_set()
    }

    /// The parts of the log's path.
    pub closed spec fn log_parts(&self) -> Seq<Seq<char>> {
        texts(self.log_path@)
    }

    /// Whether desktop notifications are sent.
    pub closed spec fn notifies(&self) -> bool {
        self.notifications_enabled
    }

    /// A supervisor with no approved peers, for the values of the variables `HOME` and
    /// `USERPROFILE`.
    pub fn new(
        notifications_enabled: bool,
        home: Option<String>,
        user_profile: Option<String>,
    ) -> (res: Self)
        ensures
            res.wf(),
            res.approved_ips() == Set::<Seq<char>>::empty(),
            res.log_parts() == log_parts(optional_text(home), optional_text(user_profile)),
            res.notifies() == notifications_enabled,
    {
        let res = Supervisor {
            log_path: default_log_path(home, user_profile),
            approved: Vec::new(),
            notifications_enabled,
        };
        assert(res.approved_ips() =~= Set::<Seq<char>>::empty());
        res
    }

    /// Whether the operator has approved a peer IP.
    fn is_approved(&self, peer_ip: &str) -> (res: bool)
        ensures
            res == self.approved_ips().contains(peer_ip@),
    {
        let ghost all = texts(self.approved@);
        let mut i: usize = 0;
        while i < self.approved.len()
            invariant
                i <= self.approved.len(),
                all == texts(self.approved@),
                forall|j: int| 0 <= j < i ==> all[j] != peer_ip@,
            decreases self.approved.len() - i,
        {
            if text::same_text(self.approved[i].as_str(), peer_ip) {
                assert(all[i as int] == peer_ip@);
                return true;
            }
            i += 1;
        }
        assert(!all.contains(peer_ip@));
        false
    }

    /// Asks whether to allow a viewer. Where no consent is required, or the operator has
    /// approved the peer IP before, it is allowed without asking; else the result is the
    /// prompt for the operator, who has `timeout_secs` seconds to answer.
    pub fn gate(&self, peer_ip: &str, require: bool, timeout_secs: u64) -> (res: GateStep)
        ensures
            match res {
                GateStep::Decided(consent) => consent == Consent::Allow && !gate_asks(
                    self.approved_ips(),
                    peer_ip@,
                    require,
                ),
                GateStep::Ask(prompt) => gate_asks(self.approved_ips(), peer_ip@, require)
                    && prompt@ == prompt_text(peer_ip@, timeout_secs),
            },
    {
        if !require {
            return GateStep::Decided(Consent::Allow);
        }
        if self.is_approved(peer_ip) {
            return GateStep::Decided(Consent::Allow);
        }
        let mut prompt = join2("[remote-lab] CONSENT: allow viewer from ", peer_ip);
        prompt.append("? type `y` + Enter within ");
        text::push_decimal(&mut prompt, timeout_secs);
        prompt.append(" s to allow, anything else denies.");
        GateStep::Ask(prompt)
    }

    /// Takes what came back from the prompt, decides, and remembers the peer IP where the
    /// operator said yes.
    pub fn settle(&mut self, peer_ip: &str, reply: &Option<String>) -> (res: Consent)
        requires
            old(self).wf(),
        ensures
            final(self).wf(),
            res == reply_consent(optional_text(*reply)),
            final(self).approved_ips() == approved_after(old(self).approved_ips(), peer_ip@, res),
            final(self).log_parts() == old(self).log_parts(),
            final(self).notifies() == old(self).notifies(),
    {
        let decision: Consent = prompt_decision(reply);
        if decision == Consent::Allow && !self.is_approved(peer_ip) {
            let ghost before = texts(self.approved@);
            self.approved.push(peer_ip.to_owned());
            proof {
                let after = texts(self.approved@);
                assert(after =~= before.push(peer_ip@));
                assert(!before.contains(peer_ip@));
                assert forall|i: int, j: int|
                    0 <= i < j < self.approved@.len() implies self.approved@[i]@
                    != self.approved@[j]@ by {
                    assert(after[i] == self.approved@[i]@);
                    assert(after[j] == self.approved@[j]@);
                    if j == before.len() {
                        assert(before[i] == after[i]);
                    }
                }
                assert(after.to_set() =~= before.to_set().insert(peer_ip@)) by {
                    assert forall|s: Seq<char>|
                        after.contains(s) == (before.contains(s) || s == peer_ip@) by {
                        if before.contains(s) {
                            let i = choose|i: int| 0 <= i < before.len() && before[i] == s;
                            assert(after[i] == s);
                        }
                        assert(after[before.len() as int] == peer_ip@);
                        if after.contains(s) {
                            let i = choose|i: int| 0 <= i < after.len() && after[i] == s;
                            if i < before.len() {
                                assert(before[i] == s);
                            }
                        }
                    }
                }
            }
        } else {
            proof {
                if decision == Consent::Allow {
                    assert(self.approved_ips() =~= self.approved_ips().insert(peer_ip@));
                }
            }
        }
        decision
    }

    /// The announcement for a viewer that has established a session.
    pub fn on_connect(&self, peer: &str, clock: Option<u64>) -> (res: Announcement)
        requires
            calendar::clock_secs(clock) <= calendar::MAX_CLOCK_SECS,
        ensures
            res@ == connect_announced(peer@, clock, self.notifies()),
    {
        let console = join2("[remote-lab] viewer connected: ", peer);
        let mut log = calendar::iso_now(clock);
        log.append(" CONNECT  ");
        log.append(peer);
        let notice = if self.notifications_enabled {
            Some(
                Notice {
                    summary: "Remote session started".to_owned(),
                    body: join2("Viewer connected from ", peer),
                },
            )
        } else {
            None
        };
        Announcement { console, log, notice }
    }

    /// The announcement for a viewer that has gone. `elapsed` is the length of the session
    /// in seconds, or `None` where the clock shows a time before its start.
    pub fn on_disconnect(&self, peer: &str, elapsed: Option<u64>, clock: Option<u64>) -> (res:
        Announcement)
        requires
            calendar::clock_secs(clock) <= calendar::MAX_CLOCK_SECS,
        ensures
            res@ == disconnect_announced(peer@, elapsed, clock, self.notifies()),
    {
        let secs: u64 = match elapsed {
            Some(secs) => secs,
            None => 0,
        };
        let mut number = String::new();
        text::push_decimal(&mut number, secs);
        assert(number@ =~= text::decimal(secs as nat));
        let console = join5(
            "[remote-lab] viewer disconnected: ",
            peer,
            " (duration ",
            number.as_str(),
            "s)",
        );
        let mut log = calendar::iso_now(clock);
        log.append(" DISCONN  ");
        log.append(peer);
        log.append("  duration_s=");
        log.append(number.as_str());
        let notice = if self.notifications_enabled {
            Some(
                Notice {
                    summary: "Remote session ended".to_owned(),
                    body: join5(
                        "Viewer from ",
                        peer,
                        " disconnected after ",
                        number.as_str(),
                        "s",
                    ),
                },
            )
        } else {
            None
        };
        Announcement { console, log, notice }
    }

    /// The announcement for a viewer that was refused.
    pub fn on_denied(&self, peer: &str, reason: &str, clock: Option<u64>) -> (res: Announcement)
        requires
            calendar::clock_secs(clock) <= calendar::MAX_CLOCK_SECS,
        ensures
            res@ == denied_announced(peer@, reason@, clock, self.notifies()),
    {
        let console = join5("[remote-lab] connection denied: ", peer, " (", reason, ")");
        let mut log = calendar::iso_now(clock);
        log.append(" DENIED   ");
        log.append(peer);
        log.append("  reason=");
        log.append(reason);
        let notice = if self.notifications_enabled {
            Some(
                Notice {
                    summary: "Remote session denied".to_owned(),
                    body: join5("Blocked viewer from ", peer, " (", reason, ")"),
                },
            )
        } else {
            None
        };
        Announcement { console, log, notice }
    }

    /// The parts of the log's path, from the directory it hangs from to the file's name.
    pub fn log_path(&self) -> (res: &Vec<String>)
        ensures
            texts(res@) == self.log_parts(),
    {
        &self.log_path
    }
}

/// Where no consent is required nobody is asked; where it is required, only a line that
/// says yes allows a viewer: no line, for want of input or of time, denies it.
pub proof fn lemma_only_yes_allows(
    approved: Set<Seq<char>>,
    peer_ip: Seq<char>,
    reply: Option<Seq<char>>,
)
    ensures
        !gate_asks(approved, peer_ip, false),
        reply_consent(None) == Consent::Deny,
        reply_consent(reply) == Consent::Allow <==> (reply matches Some(line) && says_yes(line)),
{
}

/// A peer that was allowed is not asked about again, one that was denied is, and a
/// decision about one peer changes nothing for another.
pub proof fn lemma_approval_is_remembered(
    approved: Set<Seq<char>>,
    peer_ip: Seq<char>,
    other_ip: Seq<char>,
    consent: Consent,
    require: bool,
)
    ensures
        consent == Consent::Allow ==> !gate_asks(
            approved_after(approved, peer_ip, consent),
            peer_ip,
            require,
        ),
        consent == Consent::Deny ==> approved_after(approved, peer_ip, consent) == approved,
        other_ip != peer_ip ==> gate_asks(
            approved_after(approved, peer_ip, consent),
            other_ip,
            require,
        ) == gate_asks(approved, other_ip, require),
{
}

/// The approved peer IPs of a run, after answers about peers in the order they came.
pub open spec fn approved_in_run(answers: Seq<(Seq<char>, Option<Seq<char>>)>) -> Set<Seq<char>>
    decreases answers.len(),
{
    if answers.len() == 0 {
        Set::empty()
    } else {
        let (peer_ip, reply) = answers.last();
        approved_after(approved_in_run(answers.drop_last()), peer_ip, reply_consent(reply))
    }
}

/// At any time of a run a peer is approved exactly if the operator has said yes to it.
pub proof fn lemma_approved_means_said_yes(
    answers: Seq<(Seq<char>, Option<Seq<char>>)>,
    peer_ip: Seq<char>,
)
    ensures
        approved_in_run(answers).contains(peer_ip) <==> exists|i: int|
            0 <= i < answers.len() && (#[trigger] answers[i]).0 == peer_ip && reply_consent(
                answers[i].1,
            ) == Consent::Allow,
    decreases answers.len(),
{
    if answers.len() > 0 {
        let before = answers.drop_last();
        lemma_approved_means_said_yes(before, peer_ip);
        assert(forall|i: int| 0 <= i < before.len() ==> before[i] == answers[i]);
        if approved_in_run(before).contains(peer_ip) {
            let i = choose|i: int|
                0 <= i < before.len() && (#[trigger] before[i]).0 == peer_ip && reply_consent(
                    before[i].1,
                ) == Consent::Allow;
            assert(answers[i].0 == peer_ip);
        } else if approved_in_run(answers).contains(peer_ip) {
            assert(answers[answers.len() - 1].0 == peer_ip);
        } else {
            assert forall|i: int|
                0 <= i < answers.len() && (#[trigger] answers[i]).0 == peer_ip implies
                reply_consent(answers[i].1) != Consent::Allow by {
                if i < before.len() {
                    assert(before[i] == answers[i]);
                }
            }
        }
    }
}

/// Every event of a session is written to the log and to the console, whether
/// notifications are switched on or not.
pub proof fn lemma_log_is_always_kept(
    peer: Seq<char>,
    reason: Seq<char>,
    elapsed: Option<u64>,
    clock: Option<u64>,
)
    ensures
        ({
            let on = connect_announced(peer, clock, true);
            let off = connect_announced(peer, clock, false);
            on.log == off.log && on.console == off.console && on.notice is Some && off.notice
                is None
        }),
        ({
            let on = disconnect_announced(peer, elapsed, clock, true);
            let off = disconnect_announced(peer, elapsed, clock, false);
            on.log == off.log && on.console == off.console && on.notice is Some && off.notice
                is None
        }),
        ({
            let on = denied_announced(peer, reason, clock, true);
            let off = denied_announced(peer, reason, clock, false);
            on.log == off.log && on.console == off.console && on.notice is Some && off.notice
                is None
        }),
{
}

/// The log line of a session's end gives, behind `duration_s=`, the seconds that it lasted;
/// the console line and the notification give the same number. A session whose length is not
/// known counts as zero seconds.
pub proof fn lemma_duration_is_told(
    peer: Seq<char>,
    elapsed: Option<u64>,
    clock: Option<u64>,
    notify: bool,
) -> (number: Seq<char>)
    ensures
        elapsed matches Some(secs) ==> text::reads_as(number, secs as int),
        elapsed is None ==> text::reads_as(number, 0),
        ({
            let told = disconnect_announced(peer, elapsed, clock, notify);
            &&& told.log == stamp(clock) + " DISCONN  "@ + peer + "  duration_s="@ + number
            &&& told.console == "[remote-lab] viewer disconnected: "@ + peer + " (duration "@
                + number + "s)"@
            &&& told.notice is Some <==> notify
            &&& told.notice matches Some((summary, body)) ==> summary == "Remote session ended"@
                && body == "Viewer from "@ + peer + " disconnected after "@ + number + "s"@
        }),
{
    match elapsed {
        Some(secs) => {
            text::lemma_decimal_reads_as(secs as nat);
            text::decimal(secs as nat)
        },
        None => {
            text::lemma_decimal_reads_as(0);
            text::decimal(0)
        },
    }
}

/// Sessions of different lengths leave different log lines.
pub proof fn lemma_durations_differ(peer: Seq<char>, a: u64, b: u64, clock: Option<u64>, notify: bool)
    requires
        a != b,
    ensures
        disconnect_announced(peer, Some(a), clock, notify).log != disconnect_announced(
            peer,
            Some(b),
            clock,
            notify,
        ).log,
{
    let x = lemma_duration_is_told(peer, Some(a), clock, notify);
    let y = lemma_duration_is_told(peer, Some(b), clock, notify);
    let front = stamp(clock) + " DISCONN  "@ + peer + "  duration_s="@;
    if front + x == front + y {
        assert(x =~= (front + x).skip(front.len() as int));
        assert(y =~= (front + y).skip(front.len() as int));
    }
}

/// The start of a session and a refusal name the viewer, and a refusal its reason, on the
/// console, in the log and in the notification, which is there where notifications are
/// switched on.
pub proof fn lemma_viewer_is_named(
    peer: Seq<char>,
    reason: Seq<char>,
    clock: Option<u64>,
    notify: bool,
)
    ensures
        ({
            let told = connect_announced(peer, clock, notify);
            &&& told.log == stamp(clock) + " CONNECT  "@ + peer
            &&& told.console == "[remote-lab] viewer connected: "@ + peer
            &&& told.notice is Some <==> notify
            &&& told.notice matches Some((summary, body)) ==> summary == "Remote session started"@
                && body == "Viewer connected from "@ + peer
        }),
        ({
            let told = denied_announced(peer, reason, clock, notify);
            &&& told.log == stamp(clock) + " DENIED   "@ + peer + "  reason="@ + reason
            &&& told.console == "[remote-lab] connection denied: "@ + peer + " ("@ + reason + ")"@
            &&& told.notice is Some <==> notify
            &&& told.notice matches Some((summary, body)) ==> summary == "Remote session denied"@
                && body == "Blocked viewer from "@ + peer + " ("@ + reason + ")"@
        }),
{
}

/// The time stamp of a log line shows the second that the clock showed: its numbers are those
/// of that second's date and time. A clock set before 1970 shows its first second.
pub proof fn lemma_stamp_shows_the_clock(clock: Option<u64>)
    ensures
        ({
            let secs: int = match clock {
                Some(secs) => secs as int,
                None => 0,
            };
            let c = calendar::civil_at(secs);
            let s = stamp(clock);
            let n = s.len() - 16;
            &&& n >= 4
            &&& n > 4 ==> s[0] != '0'
            &&& forall|k: int|
                0 <= k < n || n < k < n + 3 || n + 3 < k < n + 6 || n + 6 < k < n + 9 || n + 9 < k
                    < n + 12 || n + 12 < k < n + 15 ==> '0' <= #[trigger] s[k] <= '9'
            &&& text::decimal_value(s.subrange(0, n)) == c.year
            &&& s[n] == '-'
            &&& text::decimal_value(s.subrange(n + 1, n + 3)) == c.month
            &&& s[n + 3] == '-'
            &&& text::decimal_value(s.subrange(n + 4, n + 6)) == c.day
            &&& s[n + 6] == 'T'
            &&& text::decimal_value(s.subrange(n + 7, n + 9)) == c.hour
            &&& s[n + 9] == ':'
            &&& text::decimal_value(s.subrange(n + 10, n + 12)) == c.minute
            &&& s[n + 12] == ':'
            &&& text::decimal_value(s.subrange(n + 13, n + 15)) == c.second
            &&& s[n + 15] == 'Z'
        }),
{
    let secs: int = match clock {
        Some(secs) => secs as int,
        None => 0,
    };
    calendar::lemma_every_second_has_a_date(secs);
    calendar::lemma_not_before_1970(calendar::civil_at(secs));
    calendar::lemma_date_in_range(secs);
    calendar::lemma_stamp_reads_back(calendar::civil_at(secs));
}

/// Whether a line is, from `i` to `j`, the word `y` or `yes` in letters of either case, with
/// nothing but white space around it.
pub open spec fn yes_stands(line: Seq<char>, i: int, j: int) -> bool {
    &&& 0 <= i < j <= line.len()
    &&& forall|k: int| 0 <= k < i ==> text::is_white(#[trigger] line[k])
    &&& forall|k: int| j <= k < line.len() ==> text::is_white(#[trigger] line[k])
    &&& line[i] == 'y' || line[i] == 'Y'
    &&& j == i + 1 || j == i + 3 && (line[i + 1] == 'e' || line[i + 1] == 'E') && (line[i + 2] == 's'
        || line[i + 2] == 'S')
}

/// A line allows a viewer if it is `y` or `yes`, in letters of either case and with any white
/// space around it.
pub proof fn lemma_yes_allows(line: Seq<char>, i: int, j: int)
    requires
        yes_stands(line, i, j),
    ensures
        reply_consent(Some(line)) == Consent::Allow,
{
    let (a, b) = text::lemma_trimmed_is_the_middle(line);
    text::lemma_trimmed_ends(line);
    let word = text::trimmed(line);
    assert(!text::is_white(line[i]));
    assert(!text::is_white(line[j - 1]));
    assert(a <= i && j <= b);
    assert(word[0] == line[a] && word.last() == line[b - 1]);
    assert(a == i && b == j);
    lemma_answers_spelled();
    text::lemma_small_word(word, "y"@);
    text::lemma_small_word(word, "yes"@);
    if j == i + 1 {
        assert(text::lower_text(word) == "y"@);
    } else {
        assert(word[1] == line[i + 1] && word[2] == line[i + 2]);
        assert(text::lower_text(word) == "yes"@);
    }
}

/// Only a line that is `y` or `yes` allows a viewer: another line, and no line, deny.
pub proof fn lemma_allowing_needs_yes(reply: Option<Seq<char>>) -> (found: (int, int))
    requires
        reply_consent(reply) == Consent::Allow,
    ensures
        reply matches Some(line) && yes_stands(line, found.0, found.1),
{
    let line = reply->0;
    let (i, j) = text::lemma_trimmed_is_the_middle(line);
    let word = text::trimmed(line);
    lemma_answers_spelled();
    text::lemma_small_word(word, "y"@);
    text::lemma_small_word(word, "yes"@);
    assert(word[0] == line[i]);
    if text::lower_text(word) == "y"@ {
        assert(text::same_letter(word[0], "y"@[0]));
    } else {
        assert(text::same_letter(word[0], "yes"@[0]));
        assert(text::same_letter(word[1], "yes"@[1]));
        assert(text::same_letter(word[2], "yes"@[2]));
        assert(word[1] == line[i + 1] && word[2] == line[i + 2]);
    }
    (i, j)
}

/// The two answers, as characters.
proof fn lemma_answers_spelled()
    ensures
        "y"@ == seq!['y'],
        "yes"@ == seq!['y', 'e', 's'],
{
    reveal_strlit("y");
    reveal_strlit("yes");
    assert("y"@ =~= seq!['y']);
    assert("yes"@ =~= seq!['y', 'e', 's']);
}

/// The operator is asked exactly where consent is required and the peer is not among the
/// approved ones; an answer adds a peer to them only if it allows, and only the peer that it
/// is about.
pub proof fn lemma_who_is_asked(
    approved: Set<Seq<char>>,
    peer_ip: Seq<char>,
    other_ip: Seq<char>,
    consent: Consent,
    require: bool,
)
    ensures
        gate_asks(approved, peer_ip, require) <==> require && !approved.contains(peer_ip),
        approved_after(approved, peer_ip, consent).contains(other_ip) <==> approved.contains(
            other_ip,
        ) || consent == Consent::Allow && other_ip == peer_ip,
{
}

/// The question names the peer, and the seconds that there are to answer it.
pub proof fn lemma_question_names_peer_and_time(peer_ip: Seq<char>, timeout_secs: u64) -> (number:
    Seq<char>)
    ensures
        text::reads_as(number, timeout_secs as int),
        prompt_text(peer_ip, timeout_secs) == "[remote-lab] CONSENT: allow viewer from "@ + peer_ip
            + "? type `y` + Enter within "@ + number + " s to allow, anything else denies."@,
{
    text::lemma_decimal_reads_as(timeout_secs as nat);
    text::decimal(timeout_secs as nat)
}

/// The log is the file `sessions.log` in `.remote-lab` in the home directory; where there is
/// none, in the user profile; where there is neither, in the working directory.
pub proof fn lemma_log_stands_at_home(home: Option<Seq<char>>, user_profile: Option<Seq<char>>)
    ensures
        ({
            let parts = log_parts(home, user_profile);
            &&& parts.len() == 3
            &&& home matches Some(dir) ==> parts[0] == dir
            &&& home is None ==> (user_profile matches Some(dir) ==> parts[0] == dir)
            &&& home is None && user_profile is None ==> parts[0] == "."@
            &&& parts[1] == ".remote-lab"@
            &&& parts[2] == "sessions.log"@
        }),
{
}

} // verus!
