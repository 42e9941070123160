//! The command line.

use crate::net::NetConfig;
use crate::peers::Pin;
use crate::text::{
    decimal, law_decimal_spells_the_number, push_decimal, quote, quoted, same_text,
};
use vstd::prelude::*;

verus! {

/// How many blobs one screen will hold before it starts refusing throws. Capped by the
/// shader's ball budget, because blobs that touch are drawn as one merged field and the
/// whole clump has to fit in one draw.
pub const MAX_RESIDENT_BLOBS: usize = crate::groups::MAX_BLOBS / (crate::physics::SAT_COUNT + 1);

#[derive(Debug, PartialEq, Eq)]
pub enum Mode {
    Overlay,
    Windowed,
    SelfTest,
    /// Render a few frames, read the blob's pixels back out of the framebuffer, and write
    /// them to this file.
    Capture(String),
    /// A headless peer: join the network, catch whatever is thrown here, and throw it
    /// straight back. No window, no GL, no X.
    NetEcho,
}

/// Everything the network layer needs, collected from the command line.
#[derive(Debug, PartialEq, Eq)]
pub struct NetOpts {
    /// Nothing binds a socket unless this is on.
    pub enabled: bool,
    /// Announce ourselves and listen for others.
    pub discovery: bool,
    pub group: String,
    pub name: Option<String>,
    pub capacity: usize,
    /// Raw `--peer` specs, resolved once the network starts.
    pub peers: Vec<String>,
    /// `--net-echo` only: how long to hold a caught blob before throwing it back, in
    /// milliseconds.
    pub hold_ms: u64,
    /// `--net-echo` only: invent a blob and throw it at the first peer that turns up.
    pub serve: bool,
}

/// What the command line asks for.
#[derive(Debug, PartialEq, Eq)]
pub enum Command {
    Run(Mode, NetOpts),
    Help,
    /// It makes no sense; say so, and how it is used if `usage` is set.
    Fail { message: String, usage: bool },
}

/// What a [`Mode`] is.
pub enum ModeView {
    Overlay,
    Windowed,
    SelfTest,
    Capture(Seq<char>),
    NetEcho,
}

/// What [`NetOpts`] are.
pub struct NetOptsView {
    pub enabled: bool,
    pub discovery: bool,
    pub group: Seq<char>,
    pub name: Option<Seq<char>>,
    pub capacity: usize,
    pub peers: Seq<Seq<char>>,
    pub hold_ms: u64,
    pub serve: bool,
}

/// What a [`Command`] is.
pub enum CommandView {
    Run(ModeView, NetOptsView),
    Help,
    Fail { message: Seq<char>, usage: bool },
}

impl View for Mode {
    type V = ModeView;

    open spec fn view(&self) -> ModeView {
        match *self {
            Mode::Overlay => ModeView::Overlay,
            Mode::Windowed => ModeView::Windowed,
            Mode::SelfTest => ModeView::SelfTest,
            Mode::Capture(path) => ModeView::Capture(path@),
            Mode::NetEcho => ModeView::NetEcho,
        }
    }
}

/// What each text of a list is.
pub open spec fn texts(list: Seq<String>) -> Seq<Seq<char>> {
    list.map_values(|s: String| s@)
}

impl View for NetOpts {
    type V = NetOptsView;

    open spec fn view(&self) -> NetOptsView {
        NetOptsView {
            enabled: self.enabled,
            discovery: self.discovery,
            group: self.group@,
            name: match self.name {
                Some(n) => Some(n@),
                None => None,
            },
            capacity: self.capacity,
            peers: texts(self.peers@),
            hold_ms: self.hold_ms,
            serve: self.serve,
        }
    }
}

impl View for Command {
    type V = CommandView;

    open spec fn view(&self) -> CommandView {
        match *self {
            Command::Run(mode, net) => CommandView::Run(mode@, net@),
            Command::Help => CommandView::Help,
            Command::Fail { message, usage } => CommandView::Fail { message: message@, usage },
        }
    }
}

/// The options of an empty command line.
pub open spec fn default_opts() -> NetOptsView {
    NetOptsView {
        enabled: false,
        discovery: true,
        group: "default"@,
        name: None,
        capacity: MAX_RESIDENT_BLOBS,
        peers: Seq::empty(),
        hold_ms: 800,
        serve: false,
    }
}

impl Default for NetOpts {
    fn default() -> (r: NetOpts)
        ensures
            r@ == default_opts(),
    {
        let r = NetOpts {
            enabled: false,
            discovery: true,
            group: String::from_str("default"),
            name: None,
            capacity: MAX_RESIDENT_BLOBS,
            peers: Vec::new(),
            hold_ms: 800,
            serve: false,
        };
        assert(r@.peers =~= Seq::empty());
        r
    }
}

// ---------------------------------------------------------------------------
// Numbers
// ---------------------------------------------------------------------------

/// A decimal digit.
pub open spec fn is_digit(c: char) -> bool {
    48 <= c as u32 <= 57
}

/// Nothing but decimal digits.
pub open spec fn all_digits(s: Seq<char>) -> bool {
    forall|i: int| 0 <= i < s.len() ==> is_digit(#[trigger] s[i])
}

/// The number that decimal digits spell.
pub open spec fn digits_value(s: Seq<char>) -> nat
    decreases s.len(),
{
    if s.len() == 0 {
        0
    } else {
        10 * digits_value(s.drop_last()) + (s.last() as u32 - 48) as nat
    }
}

/// The text after a plus sign, if it begins with one.
pub open spec fn without_plus(s: Seq<char>) -> Seq<char> {
    if s.len() > 0 && s[0] == '+' {
        s.skip(1)
    } else {
        s
    }
}

/// The number that a text spells: decimal digits, with a plus sign before them or without.
pub open spec fn number(s: Seq<char>) -> Option<nat> {
    let digits = without_plus(s);
    if digits.len() > 0 && all_digits(digits) {
        Some(digits_value(digits))
    } else {
        None
    }
}

proof fn lemma_digits_grow(s: Seq<char>, i: int)
    requires
        all_digits(s),
        0 <= i <= s.len(),
    ensures
        digits_value(s.take(i)) <= digits_value(s),
    decreases s.len(),
{
    if i < s.len() {
        let head = s.drop_last();
        assert forall|k: int| 0 <= k < head.len() implies is_digit(#[trigger] head[k]) by {
            assert(is_digit(s[k]));
        }
        lemma_digits_grow(head, i);
        assert(head.take(i) =~= s.take(i));
        assert(is_digit(s[s.len() - 1]));
    } else {
        assert(s.take(i) =~= s);
    }
}

/// The number that a text spells, if it is one and fits.
pub fn parse_number(s: &str) -> (r: Option<u64>)
    ensures
        match r {
            Some(n) => number(s@) == Some(n as nat),
            None => number(s@) is None || number(s@)->0 > u64::MAX,
        },
{
    let len: usize = s.unicode_len();
    let start: usize = if len > 0 && s.get_char(0) == '+' {
        1
    } else {
        0
    };
    let ghost digits = without_plus(s@);
    assert(digits =~= s@.skip(start as int));
    if start == len {
        return None;
    }
    let mut n: u64 = 0;
    let mut i: usize = start;
    assert(digits.take(0) =~= Seq::empty());
    while i < len
        invariant
            start <= i <= len,
            len == s@.len(),
            digits == s@.skip(start as int),
            digits == without_plus(s@),
            digits.len() > 0,
            all_digits(digits.take(i - start)),
            n == digits_value(digits.take(i - start)),
        decreases len - i,
    {
        let c: u32 = s.get_char(i) as u32;
        assert(digits[i - start] == s@[i as int]);
        if c < 48 || c > 57 {
            assert(!is_digit(digits[i - start]));
            return None;
        }
        let d: u64 = (c - 48) as u64;
        let ghost head = digits.take(i - start);
        let ghost next = digits.take(i - start + 1);
        assert(next.drop_last() =~= head);
        assert(next.last() == digits[i - start]);
        assert(all_digits(next)) by {
            assert forall|k: int| 0 <= k < next.len() implies is_digit(#[trigger] next[k]) by {
                if k < head.len() {
                    assert(is_digit(head[k]));
                }
            }
        }
        assert(digits_value(next) == 10 * n + d);
        if n > (u64::MAX - d) / 10 {
            proof {
                assert(10 * n + d > u64::MAX);
                if all_digits(digits) {
                    lemma_digits_grow(digits, i - start + 1);
                }
            }
            return None;
        }
        n = 10 * n + d;
        i = i + 1;
    }
    assert(digits.take(i - start) =~= digits);
    Some(n)
}

// ---------------------------------------------------------------------------
// Arguments
// ---------------------------------------------------------------------------

/// The command line as far as it has been read.
pub struct Reading {
    pub mode: ModeView,
    pub net: NetOptsView,
}

/// What comes of a command line that breaks off where a value is needed.
pub open spec fn needs_value(flag: Seq<char>) -> CommandView {
    CommandView::Fail {
        message: "liquidMetal: "@ + flag + " needs a value"@,
        usage: false,
    }
}

/// What comes of a capacity `v`: the options with it, or a failure.
pub open spec fn with_capacity(net: NetOptsView, v: Seq<char>) -> Result<NetOptsView, CommandView> {
    match number(v) {
        Some(n) => if 1 <= n <= MAX_RESIDENT_BLOBS {
            Ok(NetOptsView { capacity: n as usize, ..net })
        } else if n <= usize::MAX {
            Err(
                CommandView::Fail {
                    message: "liquidMetal: --net-capacity "@ + decimal(n)
                        + " is out of range; this build holds 1 to "@ + decimal(
                        MAX_RESIDENT_BLOBS as nat,
                    ) + " blobs (raise render::MAX_BLOBS for more)"@,
                    usage: false,
                },
            )
        } else {
            Err(not_a_capacity(v))
        },
        None => Err(not_a_capacity(v)),
    }
}

/// What comes of a capacity that is no number.
pub open spec fn not_a_capacity(v: Seq<char>) -> CommandView {
    CommandView::Fail {
        message: "liquidMetal: --net-capacity wants a number, got "@ + quoted(v),
        usage: false,
    }
}

/// What comes of a holding time `v`: the options with it, or a failure.
pub open spec fn with_hold(net: NetOptsView, v: Seq<char>) -> Result<NetOptsView, CommandView> {
    match number(v) {
        Some(n) if n <= u64::MAX => Ok(NetOptsView { hold_ms: n as u64, ..net }),
        _ => Err(
            CommandView::Fail {
                message: "liquidMetal: --net-hold wants milliseconds, got "@ + quoted(v),
                usage: false,
            },
        ),
    }
}

/// Whether a flag takes the argument behind it as its value.
pub open spec fn takes_value(flag: Seq<char>) -> bool {
    flag == "--capture"@ || flag == "--peer"@ || flag == "--net-group"@ || flag == "--net-name"@
        || flag == "--net-capacity"@ || flag == "--net-hold"@
}

/// What a flag with its value makes of the command line so far.
pub open spec fn taking(r: Reading, flag: Seq<char>, v: Seq<char>) -> Result<Reading, CommandView> {
    if flag == "--capture"@ {
        Ok(Reading { mode: ModeView::Capture(v), ..r })
    } else if flag == "--peer"@ {
        Ok(
            Reading {
                net: NetOptsView { enabled: true, peers: r.net.peers.push(v), ..r.net },
                ..r
            },
        )
    } else if flag == "--net-group"@ {
        Ok(Reading { net: NetOptsView { group: v, ..r.net }, ..r })
    } else if flag == "--net-name"@ {
        Ok(Reading { net: NetOptsView { name: Some(v), ..r.net }, ..r })
    } else if flag == "--net-capacity"@ {
        match with_capacity(r.net, v) {
            Ok(net) => Ok(Reading { net, ..r }),
            Err(c) => Err(c),
        }
    } else {
        match with_hold(r.net, v) {
            Ok(net) => Ok(Reading { net, ..r }),
            Err(c) => Err(c),
        }
    }
}

/// What a flag that takes no value makes of the command line so far.
pub open spec fn switching(r: Reading, flag: Seq<char>) -> Result<Reading, CommandView> {
    if flag == "--windowed"@ {
        Ok(Reading { mode: ModeView::Windowed, ..r })
    } else if flag == "--selftest"@ {
        Ok(Reading { mode: ModeView::SelfTest, ..r })
    } else if flag == "--net"@ {
        Ok(Reading { net: NetOptsView { enabled: true, ..r.net }, ..r })
    } else if flag == "--net-echo"@ {
        Ok(
            Reading { mode: ModeView::NetEcho, net: NetOptsView { enabled: true, ..r.net } },
        )
    } else if flag == "--no-discovery"@ {
        Ok(Reading { net: NetOptsView { discovery: false, ..r.net }, ..r })
    } else if flag == "--net-serve"@ {
        Ok(
            Reading {
                mode: ModeView::NetEcho,
                net: NetOptsView { enabled: true, serve: true, ..r.net },
            },
        )
    } else if flag == "-h"@ || flag == "--help"@ {
        Err(CommandView::Help)
    } else {
        Err(
            CommandView::Fail {
                message: "liquidMetal: unknown argument "@ + quoted(flag),
                usage: true,
            },
        )
    }
}

/// What the arguments from `i` on make of the command line so far.
pub open spec fn reading(args: Seq<Seq<char>>, i: int, r: Reading) -> CommandView
    decreases args.len() - i,
{
    if i < 0 || i >= args.len() {
        CommandView::Run(r.mode, r.net)
    } else if takes_value(args[i]) {
        if i + 1 >= args.len() {
            if args[i] == "--capture"@ {
                CommandView::Fail {
                    message: "liquidMetal: --capture needs a file path"@,
                    usage: false,
                }
            } else {
                needs_value(args[i])
            }
        } else {
            match taking(r, args[i], args[i + 1]) {
                Ok(next) => reading(args, i + 2, next),
                Err(c) => c,
            }
        }
    } else {
        match switching(r, args[i]) {
            Ok(next) => reading(args, i + 1, next),
            Err(c) => c,
        }
    }
}

/// The command line as far as it has been read, for real.
struct Progress {
    mode: Mode,
    net: NetOpts,
}

impl Progress {
    spec fn so_far(self) -> Reading {
        Reading { mode: self.mode@, net: self.net@ }
    }

    fn switch(&mut self, flag: &str) -> (r: Option<Command>)
        ensures
            match r {
                None => switching(old(self).so_far(), flag@) == Ok::<Reading, CommandView>(
                    final(self).so_far(),
                ),
                Some(c) => switching(old(self).so_far(), flag@) == Err::<Reading, CommandView>(c@),
            },
    {
        if same_text(flag, "--windowed") {
            self.mode = Mode::Windowed;
        } else if same_text(flag, "--selftest") {
            self.mode = Mode::SelfTest;
        } else if same_text(flag, "--net") {
            self.net.enabled = true;
        } else if same_text(flag, "--net-echo") {
            self.mode = Mode::NetEcho;
            self.net.enabled = true;
        } else if same_text(flag, "--no-discovery") {
            self.net.discovery = false;
        } else if same_text(flag, "--net-serve") {
            self.mode = Mode::NetEcho;
            self.net.enabled = true;
            self.net.serve = true;
        } else if same_text(flag, "-h") || same_text(flag, "--help") {
            return Some(Command::Help);
        } else {
            let mut message = String::from_str("liquidMetal: unknown argument ");
            message.append(quote(flag).as_str());
            return Some(Command::Fail { message, usage: true });
        }
        None
    }

    fn capacity(&mut self, v: &str) -> (r: Option<Command>)
        ensures
            final(self).mode == old(self).mode,
            match r {
                None => with_capacity(old(self).net@, v@) == Ok::<NetOptsView, CommandView>(
                    final(self).net@,
                ),
                Some(c) => with_capacity(old(self).net@, v@) == Err::<NetOptsView, CommandView>(
                    c@,
                ),
            },
    {
        match parse_number(v) {
            Some(n) => {
                if n >= 1 && n <= MAX_RESIDENT_BLOBS as u64 {
                    self.net.capacity = n as usize;
                    return None;
                }
                if n <= usize::MAX as u64 {
                    let mut message = String::from_str("liquidMetal: --net-capacity ");
                    push_decimal(&mut message, n);
                    message.append(" is out of range; this build holds 1 to ");
                    push_decimal(&mut message, MAX_RESIDENT_BLOBS as u64);
                    message.append(" blobs (raise render::MAX_BLOBS for more)");
                    return Some(Command::Fail { message, usage: false });
                }
            },
            None => {},
        }
        let mut message = String::from_str("liquidMetal: --net-capacity wants a number, got ");
        message.append(quote(v).as_str());
        Some(Command::Fail { message, usage: false })
    }

    fn hold(&mut self, v: &str) -> (r: Option<Command>)
        ensures
            final(self).mode == old(self).mode,
            match r {
                None => with_hold(old(self).net@, v@) == Ok::<NetOptsView, CommandView>(
                    final(self).net@,
                ),
                Some(c) => with_hold(old(self).net@, v@) == Err::<NetOptsView, CommandView>(c@),
            },
    {
        match parse_number(v) {
            Some(n) => {
                self.net.hold_ms = n;
                None
            },
            None => {
                let mut message = String::from_str("liquidMetal: --net-hold wants milliseconds, got ");
                message.append(quote(v).as_str());
                Some(Command::Fail { message, usage: false })
            },
        }
    }

    fn take(&mut self, flag: &str, v: &String) -> (r: Option<Command>)
        requires
            takes_value(flag@),
        ensures
            match r {
                None => taking(old(self).so_far(), flag@, v@) == Ok::<Reading, CommandView>(
                    final(self).so_far(),
                ),
                Some(c) => taking(old(self).so_far(), flag@, v@) == Err::<Reading, CommandView>(
                    c@,
                ),
            },
    {
        if same_text(flag, "--capture") {
            self.mode = Mode::Capture(v.clone());
            None
        } else if same_text(flag, "--peer") {
            let ghost before = self.net@.peers;
            self.net.enabled = true;
            self.net.peers.push(v.clone());
            assert(self.net@.peers =~= before.push(v@));
            None
        } else if same_text(flag, "--net-group") {
            self.net.group = v.clone();
            None
        } else if same_text(flag, "--net-name") {
            self.net.name = Some(v.clone());
            None
        } else if same_text(flag, "--net-capacity") {
            self.capacity(v.as_str())
        } else {
            self.hold(v.as_str())
        }
    }
}

fn wants_value(flag: &str) -> (r: bool)
    ensures
        r == takes_value(flag@),
{
    same_text(flag, "--capture") || same_text(flag, "--peer") || same_text(flag, "--net-group")
        || same_text(flag, "--net-name") || same_text(flag, "--net-capacity") || same_text(
        flag,
        "--net-hold",
    )
}

/// What the arguments behind the program's name ask for.
pub fn parse_args(args: &Vec<String>) -> (r: Command)
    ensures
        r@ == reading(
            texts(args@),
            0,
            Reading { mode: ModeView::Overlay, net: default_opts() },
        ),
{
    let ghost all = texts(args@);
    let mut p = Progress { mode: Mode::Overlay, net: NetOpts::default() };
    let ghost start = p.so_far();
    let mut i: usize = 0;
    while i < args.len()
        invariant
            i <= args@.len(),
            all == texts(args@),
            start == (Reading { mode: ModeView::Overlay, net: default_opts() }),
            reading(all, 0, start) == reading(all, i as int, p.so_far()),
        decreases args@.len() - i,
    {
        let flag = args[i].as_str();
        assert(all[i as int] == flag@);
        if wants_value(flag) {
            if i + 1 >= args.len() {
                if same_text(flag, "--capture") {
                    return Command::Fail {
                        message: String::from_str("liquidMetal: --capture needs a file path"),
                        usage: false,
                    };
                }
                let mut message = String::from_str("liquidMetal: ");
                message.append(flag);
                message.append(" needs a value");
                return Command::Fail { message, usage: false };
            }
            assert(all[i + 1] == args@[i + 1]@);
            match p.take(flag, &args[i + 1]) {
                Some(c) => return c,
                None => {},
            }
            i = i + 2;
        } else {
            match p.switch(flag) {
                Some(c) => return c,
                None => {},
            }
            i = i + 1;
        }
    }
    Command::Run(p.mode, p.net)
}

// ---------------------------------------------------------------------------
// What follows from the options
// ---------------------------------------------------------------------------

/// Idle frame budget while networking is on, in milliseconds. The idle path blocks on the
/// event queue, which a blob arriving over a socket cannot wake, so the wait is shortened
/// while there is a network.
pub const NET_IDLE_WAIT_MS: u32 = 25;

/// How long to wait for an event while nothing moves, in milliseconds: `plain` without a
/// network.
pub fn idle_wait(networked: bool, plain: u32) -> (r: u32)
    ensures
        r == (if networked {
            NET_IDLE_WAIT_MS
        } else {
            plain
        }),
        networked ==> r == 25,
{
    if networked {
        NET_IDLE_WAIT_MS
    } else {
        plain
    }
}

/// What to say of a `--peer` value that cannot be used.
pub fn peer_complaint(spec: &str, why: &str) -> (out: String)
    ensures
        out@ == "--peer "@ + quoted(spec@) + " is not usable: "@ + why@,
{
    let mut out = String::from_str("--peer ");
    out.append(quote(spec).as_str());
    out.append(" is not usable: ");
    out.append(why);
    out
}

impl NetOpts {
    /// How to set the network up, on a machine called `host` and with the peers that the
    /// `--peer` values come to.
    pub fn config(&self, host: String, pinned: Vec<Pin>) -> (r: NetConfig)
        ensures
            r.group@ == self@.group,
            r.name@ == (match self@.name {
                Some(name) => name,
                None => host@,
            }),
            r.capacity == self@.capacity as u16,
            r.discovery == self@.discovery,
            r.pinned@ == pinned@,
    {
        let name = match &self.name {
            Some(name) => String::from_str(name.as_str()),
            None => host,
        };
        NetConfig {
            group: String::from_str(self.group.as_str()),
            name,
            capacity: #[verifier::truncate] (self.capacity as u16),
            discovery: self.discovery,
            pinned,
        }
    }

    /// Whether to join the network: only if it was asked for, and not while capturing a
    /// picture.
    pub fn joins(&self, mode: &Mode) -> (r: bool)
        ensures
            r == (self@.enabled && !(mode@ is Capture)),
    {
        self.enabled && !matches!(mode, Mode::Capture(_))
    }
}

// ---------------------------------------------------------------------------
// What the command line means
// ---------------------------------------------------------------------------

proof fn lemma_one_resident()
    ensures
        MAX_RESIDENT_BLOBS == 1,
{
    let a = crate::groups::MAX_BLOBS;
    let b = (crate::physics::SAT_COUNT + 1) as usize;
    assert(a / b == 1) by (nonlinear_arith)
        requires
            a == 16,
            b == 9,
    ;
}

proof fn lemma_digits_of(n: nat)
    ensures
        all_digits(decimal(n)),
        digits_value(decimal(n)) == n,
        decimal(n).len() > 0,
        decimal(n)[0] != '+',
    decreases n,
{
    law_decimal_spells_the_number(n);
    let s = decimal(n);
    assert forall|i: int| 0 <= i < s.len() implies is_digit(#[trigger] s[i]) by {
        assert(48 <= s[i] as u32 <= 57);
    }
    assert(is_digit(s[0]));
    if n >= 10 {
        lemma_digits_of(n / 10);
    } else {
        assert(s.drop_last() =~= Seq::empty());
    }
    assert(is_digit(s[s.len() - 1]));
    assert(digits_value(s) == 10 * digits_value(s.drop_last()) + (s.last() as u32 - 48) as nat);
}

/// A number written out in decimal reads as that number, with a plus sign or without; no text
/// with anything else in it is a number, and neither is no text at all.
pub proof fn law_numbers_read_as_they_are_written(n: nat, s: Seq<char>, i: int)
    ensures
        number(decimal(n)) == Some(n),
        number(seq!['+'] + decimal(n)) == Some(n),
        s.len() == 0 ==> number(s) is None,
        0 <= i < s.len() && !(48 <= s[i] as u32 <= 57) && !(i == 0 && s[0] == '+') ==> number(
            s,
        ) is None,
        s.len() == 1 && s[0] == '+' ==> number(s) is None,
{
    lemma_digits_of(n);
    let signed = seq!['+'] + decimal(n);
    assert(signed.skip(1) =~= decimal(n));
    let digits = without_plus(s);
    if 0 <= i < s.len() && !(48 <= s[i] as u32 <= 57) && !(i == 0 && s[0] == '+') {
        if s[0] == '+' {
            assert(digits[i - 1] == s[i]);
            assert(!is_digit(digits[i - 1]));
        } else {
            assert(!is_digit(digits[i]));
        }
    }
}

/// Without a word on the command line there is an overlay and no network; a network would
/// announce itself, in the group called default and under the machine's name, hold one blob
/// and no peers but those it finds, and an echo would keep a blob for 800 milliseconds.
pub proof fn law_what_goes_without_saying()
    ensures
        reading(
            Seq::empty(),
            0,
            Reading { mode: ModeView::Overlay, net: default_opts() },
        ) == CommandView::Run(ModeView::Overlay, default_opts()),
        default_opts() == (NetOptsView {
            enabled: false,
            discovery: true,
            group: "default"@,
            name: None,
            capacity: 1,
            peers: Seq::empty(),
            hold_ms: 800,
            serve: false,
        }),
{
    lemma_one_resident();
}

proof fn lemma_flags_differ()
    ensures
        "--capture"@.len() == 9 && "--peer"@.len() == 6 && "--net-group"@.len() == 11
            && "--net-name"@.len() == 10 && "--net-capacity"@.len() == 14 && "--net-hold"@.len()
            == 10 && "--windowed"@.len() == 10 && "--selftest"@.len() == 10 && "--net"@.len() == 5
            && "--net-echo"@.len() == 10 && "--no-discovery"@.len() == 14 && "--net-serve"@.len()
            == 11 && "-h"@.len() == 2 && "--help"@.len() == 6,
        "--peer"@[2] == 'p' && "--help"@[2] == 'h',
        "--net-group"@[6] == 'g' && "--net-serve"@[6] == 's',
        "--net-capacity"@[3] == 'e' && "--no-discovery"@[3] == 'o',
        "--net-name"@[2] == 'n' && "--net-hold"@[2] == 'n' && "--net-echo"@[2] == 'n'
            && "--windowed"@[2] == 'w' && "--selftest"@[2] == 's',
        "--net-name"@[6] == 'n' && "--net-hold"@[6] == 'h' && "--net-echo"@[6] == 'e',
{
    reveal_strlit("--capture");
    reveal_strlit("--peer");
    reveal_strlit("--net-group");
    reveal_strlit("--net-name");
    reveal_strlit("--net-capacity");
    reveal_strlit("--net-hold");
    reveal_strlit("--windowed");
    reveal_strlit("--selftest");
    reveal_strlit("--net");
    reveal_strlit("--net-echo");
    reveal_strlit("--no-discovery");
    reveal_strlit("--net-serve");
    reveal_strlit("-h");
    reveal_strlit("--help");
}

/// The value behind a flag goes where the flag says and nowhere else. Naming a peer asks for
/// the network too, and peers add up.
pub proof fn law_a_value_goes_where_its_flag_says(r: Reading, v: Seq<char>)
    ensures
        taking(r, "--capture"@, v) == Ok::<Reading, CommandView>(
            Reading { mode: ModeView::Capture(v), net: r.net },
        ),
        taking(r, "--peer"@, v) == Ok::<Reading, CommandView>(
            Reading {
                mode: r.mode,
                net: NetOptsView { enabled: true, peers: r.net.peers.push(v), ..r.net },
            },
        ),
        taking(r, "--net-group"@, v) == Ok::<Reading, CommandView>(
            Reading { mode: r.mode, net: NetOptsView { group: v, ..r.net } },
        ),
        taking(r, "--net-name"@, v) == Ok::<Reading, CommandView>(
            Reading { mode: r.mode, net: NetOptsView { name: Some(v), ..r.net } },
        ),
        taking(r, "--net-capacity"@, v) is Ok <==> number(v) == Some(1nat),
        taking(r, "--net-capacity"@, v) matches Ok(next) ==> next.mode == r.mode && next.net == (
        NetOptsView { capacity: 1, ..r.net }),
        taking(r, "--net-hold"@, v) is Ok <==> number(v) is Some && number(v)->0 <= u64::MAX,
        taking(r, "--net-hold"@, v) matches Ok(next) ==> next.mode == r.mode && next.net.hold_ms
            == number(v)->0 && next.net == (NetOptsView { hold_ms: next.net.hold_ms, ..r.net }),
{
    lemma_flags_differ();
    lemma_one_resident();
}

/// What is wrong with a value that its flag cannot take is said, and not how the program is
/// used.
pub proof fn law_a_bad_value_is_complained_of(r: Reading, v: Seq<char>)
    ensures
        number(v) is None ==> taking(r, "--net-capacity"@, v) == Err::<Reading, CommandView>(
            CommandView::Fail {
                message: "liquidMetal: --net-capacity wants a number, got "@ + quoted(v),
                usage: false,
            },
        ),
        number(v) is None ==> taking(r, "--net-hold"@, v) == Err::<Reading, CommandView>(
            CommandView::Fail {
                message: "liquidMetal: --net-hold wants milliseconds, got "@ + quoted(v),
                usage: false,
            },
        ),
        taking(r, "--net-capacity"@, v) matches Err(c) ==> c is Fail && !c->usage,
{
    lemma_flags_differ();
}

/// Each flag that stands alone does just what it says: the modes, the network, the echo, which
/// needs the network, and the echo that serves. Anything unknown is complained of, with how
/// the program is used.
pub proof fn law_a_switch_does_what_it_says(r: Reading, flag: Seq<char>)
    ensures
        switching(r, "--windowed"@) == Ok::<Reading, CommandView>(
            Reading { mode: ModeView::Windowed, net: r.net },
        ),
        switching(r, "--selftest"@) == Ok::<Reading, CommandView>(
            Reading { mode: ModeView::SelfTest, net: r.net },
        ),
        switching(r, "--net"@) == Ok::<Reading, CommandView>(
            Reading { mode: r.mode, net: NetOptsView { enabled: true, ..r.net } },
        ),
        switching(r, "--no-discovery"@) == Ok::<Reading, CommandView>(
            Reading { mode: r.mode, net: NetOptsView { discovery: false, ..r.net } },
        ),
        switching(r, "--net-echo"@) == Ok::<Reading, CommandView>(
            Reading { mode: ModeView::NetEcho, net: NetOptsView { enabled: true, ..r.net } },
        ),
        switching(r, "--net-serve"@) == Ok::<Reading, CommandView>(
            Reading {
                mode: ModeView::NetEcho,
                net: NetOptsView { enabled: true, serve: true, ..r.net },
            },
        ),
        switching(r, "-h"@) == Err::<Reading, CommandView>(CommandView::Help),
        switching(r, "--help"@) == Err::<Reading, CommandView>(CommandView::Help),
        flag != "--windowed"@ && flag != "--selftest"@ && flag != "--net"@ && flag
            != "--no-discovery"@ && flag != "--net-echo"@ && flag != "--net-serve"@ && flag
            != "-h"@ && flag != "--help"@ ==> switching(r, flag) == Err::<Reading, CommandView>(
            CommandView::Fail {
                message: "liquidMetal: unknown argument "@ + quoted(flag),
                usage: true,
            },
        ),
{
    lemma_flags_differ();
}

/// Arguments are read from the left, one after another: a flag that takes a value with the
/// argument behind it, any other on its own. The first that makes no sense decides, and if
/// all do the program runs with what they came to.
pub proof fn law_arguments_are_read_from_the_left(args: Seq<Seq<char>>, i: int, r: Reading)
    requires
        0 <= i <= args.len(),
    ensures
        ({
            let flag = args[i];
            let valued = flag == "--capture"@ || flag == "--peer"@ || flag == "--net-group"@ || flag
                == "--net-name"@ || flag == "--net-capacity"@ || flag == "--net-hold"@;
            let whole = reading(args, i, r);
            &&& i == args.len() ==> whole == CommandView::Run(r.mode, r.net)
            &&& i < args.len() && valued && i + 1 == args.len() ==> whole is Fail && !whole->usage
            &&& i + 1 < args.len() && valued ==> whole == (match taking(r, flag, args[i + 1]) {
                Ok(next) => reading(args, i + 2, next),
                Err(c) => c,
            })
            &&& i < args.len() && !valued ==> whole == (match switching(r, flag) {
                Ok(next) => reading(args, i + 1, next),
                Err(c) => c,
            })
        }),
{
}

/// The arguments name a peer at `at`.
pub open spec fn names_peer(args: Seq<Seq<char>>, at: int, name: Seq<char>) -> bool {
    args[at] == "--peer"@ && args[at + 1] == name
}

/// Peers add up in the order in which they are named: whatever is named, in whatever number,
/// the network is asked for and has just these peers.
pub proof fn law_peers_add_up(names: Seq<Seq<char>>, args: Seq<Seq<char>>, i: int, r: Reading)
    requires
        0 <= i,
        args.len() == i + 2 * names.len(),
        forall|k: int| 0 <= k < names.len() ==> names_peer(args, i + 2 * k, #[trigger] names[k]),
        names.len() > 0,
    ensures
        reading(args, i, r) == CommandView::Run(
            r.mode,
            NetOptsView { enabled: true, peers: r.net.peers + names, ..r.net },
        ),
    decreases names.len(),
{
    let next = Reading {
        mode: r.mode,
        net: NetOptsView { enabled: true, peers: r.net.peers.push(names[0]), ..r.net },
    };
    law_a_value_goes_where_its_flag_says(r, names[0]);
    law_arguments_are_read_from_the_left(args, i, r);
    assert(names_peer(args, i + 2 * 0, names[0]));
    assert(reading(args, i, r) == reading(args, i + 2, next));
    let rest = names.skip(1);
    if rest.len() > 0 {
        assert forall|k: int| 0 <= k < rest.len() implies names_peer(
            args,
            i + 2 + 2 * k,
            #[trigger] rest[k],
        ) by {
            assert(rest[k] == names[k + 1]);
            assert(names_peer(args, i + 2 * (k + 1), names[k + 1]));
        }
        law_peers_add_up(rest, args, i + 2, next);
        assert(r.net.peers.push(names[0]) + rest =~= r.net.peers + names);
    } else {
        law_arguments_are_read_from_the_left(args, i + 2, next);
        assert(r.net.peers.push(names[0]) =~= r.net.peers + names);
    }
}

} // verus!
