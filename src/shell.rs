//! The shell's logic: line editing, splitting arguments, reading numbers
//! and choosing the command. Running the command is the caller's part.
use vstd::prelude::*;
use vstd::string::StringSliceAdditionalSpecFns;


verus! {

/// Longest command line.
pub const CONSOLE_MAXCOMMANDBUFFERSIZE: usize = 300;

pub const KEY_ENTER: u8 = 0x0A;

pub const KEY_TAB: u8 = 0x09;

pub const KEY_BACKSPACE: u8 = 0x08;

/// Value of byte `c` as a digit, or -1.
pub open spec fn digit_of(c: u8) -> int {
    if 0x30 <= c <= 0x39 {
        c - 0x30
    } else if 0x61 <= c <= 0x66 {
        c - 0x61 + 10
    } else if 0x41 <= c <= 0x46 {
        c - 0x41 + 10
    } else {
        -1
    }
}

pub open spec fn is_digit(c: u8, radix: int) -> bool {
    0 <= digit_of(c) < radix
}

/// Value of the digit string `s` in base `radix`.
pub open spec fn digits_value(s: Seq<u8>, radix: int) -> int
    decreases s.len(),
{
    if s.len() == 0 {
        0
    } else {
        digits_value(s.drop_last(), radix) * radix + digit_of(s.last())
    }
}

pub open spec fn all_digits(s: Seq<u8>, radix: int) -> bool {
    forall|i: int| 0 <= i < s.len() ==> #[trigger] is_digit(s[i], radix)
}

/// `s` is an unsigned number in base `radix` as Rust's integer parsing reads
/// it: an optional `+`, then at least one digit.
pub open spec fn number_body(s: Seq<u8>) -> Seq<u8> {
    if s.len() > 0 && s[0] == 0x2B {
        s.drop_first()
    } else {
        s
    }
}

pub open spec fn number_syntax(s: Seq<u8>, radix: int) -> bool {
    number_body(s).len() > 0 && all_digits(number_body(s), radix)
}

/// Extending a digit string never lowers its value.
proof fn lemma_digits_monotone(s: Seq<u8>, radix: int, j: int)
    requires
        2 <= radix,
        0 <= j <= s.len(),
        all_digits(s, radix),
    ensures
        digits_value(s.subrange(0, j), radix) <= digits_value(s, radix),
        digits_value(s, radix) >= 0,
    decreases s.len(),
{
    if s.len() > 0 {
        let t = s.drop_last();
        assert(all_digits(t, radix)) by {
            assert forall|i: int| 0 <= i < t.len() implies #[trigger] is_digit(t[i], radix) by {
                assert(is_digit(s[i], radix));
            }
        }
        assert(is_digit(s[s.len() - 1], radix));
        if j < s.len() {
            assert(s.subrange(0, j) =~= t.subrange(0, j));
            lemma_digits_monotone(t, radix, j);
        } else {
            assert(s.subrange(0, j) =~= s);
            lemma_digits_monotone(t, radix, 0);
        }
        let v = digits_value(t, radix);
        assert(v * radix >= v) by (nonlinear_arith)
            requires
                v >= 0,
                radix >= 2,
        ;
    } else {
        assert(s.subrange(0, j) =~= s);
    }
}

/// Reads the digits of `s` from `start` in base `radix`; `None` when one is
/// no digit, there are none, or the value exceeds `u64::MAX`.
fn parse_digits(s: &[u8], start: usize, radix: u64) -> (r: Option<u64>)
    requires
        2 <= radix <= 16,
        start <= s@.len(),
    ensures
        ({
            let body = s@.subrange(start as int, s@.len() as int);
            &&& r is Some <==> (body.len() > 0 && all_digits(body, radix as int) && digits_value(body, radix as int) <= u64::MAX)
            &&& r is Some ==> r->Some_0 == digits_value(body, radix as int)
        }),
{
    let ghost body = s@.subrange(start as int, s@.len() as int);
    if start == s.len() {
        return None;
    }
    let mut acc: u64 = 0;
    let mut i: usize = start;
    while i < s.len()
        invariant
            start <= i <= s@.len(),
            2 <= radix <= 16,
            body == s@.subrange(start as int, s@.len() as int),
            all_digits(body.subrange(0, i - start), radix as int),
            acc == digits_value(body.subrange(0, i - start), radix as int),
        decreases s@.len() - i,
    {
        let c = s[i];
        let d: u64 = if 0x30 <= c && c <= 0x39 {
            (c - 0x30) as u64
        } else if 0x61 <= c && c <= 0x66 {
            (c - 0x61 + 10) as u64
        } else if 0x41 <= c && c <= 0x46 {
            (c - 0x41 + 10) as u64
        } else {
            16
        };
        let ghost pre = body.subrange(0, i - start);
        let ghost next = body.subrange(0, i - start + 1);
        assert(next.drop_last() =~= pre);
        assert(next.last() == c);
        if d >= radix {
            assert(!is_digit(body[i - start], radix as int));
            assert(!all_digits(body, radix as int));
            return None;
        }
        if acc > (u64::MAX - d) / radix {
            proof {
                assert(acc * radix + d > u64::MAX) by (nonlinear_arith)
                    requires
                        acc > ((u64::MAX - d) as int) / (radix as int),
                        radix >= 2,
                        d < radix,
                ;
                if all_digits(body, radix as int) {
                    lemma_digits_monotone(body, radix as int, i - start + 1);
                }
            }
            return None;
        }
        assert(acc * radix + d <= u64::MAX) by (nonlinear_arith)
            requires
                acc <= ((u64::MAX - d) as int) / (radix as int),
                radix >= 2,
                d <= u64::MAX,
        ;
        acc = acc * radix + d;
        proof {
            assert forall|k: int| 0 <= k < next.len() implies #[trigger] is_digit(next[k], radix as int) by {
                if k < pre.len() {
                    assert(is_digit(pre[k], radix as int));
                }
            }
        }
        i = i + 1;
    }
    assert(body.subrange(0, i - start) =~= body);
    Some(acc)
}

/// A decimal number as `str::parse::<u64>` reads it.
pub fn parse_decimal(s: &[u8]) -> (r: Option<u64>)
    ensures
        r is Some <==> (number_syntax(s@, 10) && digits_value(number_body(s@), 10) <= u64::MAX),
        r is Some ==> r->Some_0 == digits_value(number_body(s@), 10),
{
    let start: usize = if s.len() > 0 && s[0] == 0x2B { 1 } else { 0 };
    assert(s@.subrange(start as int, s@.len() as int) =~= number_body(s@));
    parse_digits(s, start, 10)
}

/// A hexadecimal number written with a `0x` prefix.
pub fn parse_hex(s: &[u8]) -> (r: Option<u64>)
    ensures
        r is Some <==> (s@.len() >= 2 && s@[0] == 0x30 && s@[1] == 0x78 && number_syntax(s@.subrange(2, s@.len() as int), 16)
            && digits_value(number_body(s@.subrange(2, s@.len() as int)), 16) <= u64::MAX),
        r is Some ==> r->Some_0 == digits_value(number_body(s@.subrange(2, s@.len() as int)), 16),
{
    if s.len() < 2 || s[0] != 0x30 || s[1] != 0x78 {
        return None;
    }
    let ghost t = s@.subrange(2, s@.len() as int);
    let start: usize = if s.len() > 2 && s[2] == 0x2B { 3 } else { 2 };
    assert(s@.subrange(start as int, s@.len() as int) =~= number_body(t));
    parse_digits(s, start, 16)
}

/// A task id: decimal, or hexadecimal after `0x`.
pub fn parse_pid(s: &[u8]) -> (r: Option<u64>)
    ensures
        r == match parse_decimal_spec(s@) {
            Some(v) => Some(v),
            None => parse_hex_spec(s@),
        },
{
    match parse_decimal(s) {
        Some(v) => Some(v),
        None => parse_hex(s),
    }
}

pub open spec fn parse_decimal_spec(s: Seq<u8>) -> Option<u64> {
    if number_syntax(s, 10) && digits_value(number_body(s), 10) <= u64::MAX {
        Some(digits_value(number_body(s), 10) as u64)
    } else {
        None
    }
}

pub open spec fn parse_hex_spec(s: Seq<u8>) -> Option<u64> {
    let t = s.subrange(2, s.len() as int);
    if s.len() >= 2 && s[0] == 0x30 && s[1] == 0x78 && number_syntax(t, 16) && digits_value(number_body(t), 16) <= u64::MAX {
        Some(digits_value(number_body(t), 16) as u64)
    } else {
        None
    }
}

/// Index of the first `c` in `s` from `from`, if any.
pub open spec fn first_index(s: Seq<u8>, c: u8, from: int) -> Option<int> {
    if exists|i: int| from <= i < s.len() && s[i] == c {
        Some(choose|i: int| from <= i < s.len() && s[i] == c && forall|j: int| from <= j < i ==> s[j] != c)
    } else {
        None
    }
}

fn find_byte(s: &[u8], c: u8, from: usize) -> (r: Option<usize>)
    requires
        from <= s@.len(),
    ensures
        r is None ==> forall|j: int| from <= j < s@.len() ==> s@[j] != c,
        r is Some ==> from <= r->Some_0 < s@.len() && s@[r->Some_0 as int] == c && forall|j: int|
            from <= j < r->Some_0 ==> s@[j] != c,
{
    let mut i = from;
    while i < s.len()
        invariant
            from <= i <= s@.len(),
            forall|j: int| from <= j < i ==> s@[j] != c,
        decreases s@.len() - i,
    {
        if s[i] == c {
            return Some(i);
        }
        i = i + 1;
    }
    None
}

/// Space-separated arguments, taken one at a time.
pub struct Parameter {
    args: Vec<u8>,
    delim: u8,
    position: usize,
}

impl Parameter {
    /// What is left to read.
    pub closed spec fn rest(&self) -> Seq<u8> {
        self.args@.subrange(self.position as int, self.args@.len() as int)
    }

    pub closed spec fn delimiter(&self) -> u8 {
        self.delim
    }

    pub closed spec fn inv(&self) -> bool {
        self.position <= self.args@.len()
    }

    pub fn new(args: &[u8], delim: u8) -> (r: Self)
        ensures
            r.inv(),
            r.rest() == args@,
            r.delimiter() == delim,
    {
        let mut v: Vec<u8> = Vec::new();
        let mut i: usize = 0;
        while i < args.len()
            invariant
                i <= args@.len(),
                v@ == args@.subrange(0, i as int),
            decreases args@.len() - i,
        {
            v.push(args[i]);
            i = i + 1;
            assert(v@ =~= args@.subrange(0, i as int));
        }
        assert(v@.subrange(0, v@.len() as int) =~= args@);
        Parameter { args: v, delim, position: 0 }
    }

    /// The text up to the next delimiter (or the end); `None` once nothing
    /// is left. The delimiter itself is skipped.
    pub fn next(&mut self) -> (r: Option<Vec<u8>>)
        requires
            old(self).inv(),
        ensures
            final(self).inv(),
            final(self).delimiter() == old(self).delimiter(),
            old(self).rest().len() == 0 <==> r is None,
            r is None ==> final(self).rest() == old(self).rest(),
            r is Some ==> ({
                let s = old(self).rest();
                let a = r->Some_0@;
                &&& s.len() > 0
                &&& s.subrange(0, a.len() as int) == a
                &&& forall|j: int| 0 <= j < a.len() ==> s[j] != old(self).delimiter()
                &&& (a.len() == s.len() ==> final(self).rest().len() == 0)
                &&& (a.len() < s.len() ==> s[a.len() as int] == old(self).delimiter()
                    && final(self).rest() == s.subrange(a.len() as int + 1, s.len() as int))
            }),
    {
        let ghost s = self.rest();
        if self.position == self.args.len() {
            return None;
        }
        let start = self.position;
        let end = match find_byte(self.args.as_slice(), self.delim, start) {
            Some(e) => e,
            None => self.args.len(),
        };
        let mut arg: Vec<u8> = Vec::new();
        let mut i = start;
        while i < end
            invariant
                start <= i <= end <= self.args@.len(),
                arg@ == self.args@.subrange(start as int, i as int),
            decreases end - i,
        {
            arg.push(self.args[i]);
            i = i + 1;
            assert(arg@ =~= self.args@.subrange(start as int, i as int));
        }
        self.position = if end < self.args.len() {
            end + 1
        } else {
            end
        };
        proof {
            assert(s.subrange(0, arg@.len() as int) =~= arg@);
            if end < self.args@.len() {
                assert(self.rest() =~= s.subrange(arg@.len() as int + 1, s.len() as int));
            }
        }
        Some(arg)
    }
}

/// `s` split at its first space: the word before it and the text after it
/// (all of `s` and nothing when it has none).
pub open spec fn split_word(s: Seq<u8>) -> (Seq<u8>, Seq<u8>) {
    match first_index(s, 0x20, 0) {
        Some(i) => (s.subrange(0, i), s.subrange(i + 1, s.len() as int)),
        None => (s, Seq::<u8>::empty()),
    }
}

/// The `k`-th space-separated argument of `args`, as `Parameter::next`
/// hands them out.
pub open spec fn nth_arg(args: Seq<u8>, k: nat) -> Option<Seq<u8>>
    decreases k,
{
    if args.len() == 0 {
        None
    } else if k == 0 {
        Some(split_word(args).0)
    } else {
        nth_arg(split_word(args).1, (k - 1) as nat)
    }
}

/// A decimal argument.
pub open spec fn decimal_arg(args: Seq<u8>, k: nat) -> Option<u64> {
    match nth_arg(args, k) {
        Some(a) => parse_decimal_spec(a),
        None => None,
    }
}

/// A task-id argument, decimal or `0x` hexadecimal.
pub open spec fn pid_arg(args: Seq<u8>, k: nat) -> Option<u64> {
    match nth_arg(args, k) {
        Some(a) => match parse_decimal_spec(a) {
            Some(v) => Some(v),
            None => parse_hex_spec(a),
        },
        None => None,
    }
}

/// The commands whose arguments can be malformed.
#[derive(Clone, Copy, PartialEq, Eq, Structural)]
pub enum Usage {
    SetTimer,
    Wait,
    CreateTask,
    KillTask,
    ChangePriority,
}

/// A parsed command line.
#[derive(Clone, Copy, PartialEq, Eq, Structural)]
pub enum Command {
    Help,
    Cls,
    TotalRam,
    Shutdown,
    SetTimer { ms: u64, periodic: bool },
    Wait { ms: u64 },
    CpuSpeed,
    Date,
    CreateTask { count: u64 },
    ListTask,
    KillTask { pid: u64 },
    ChangePriority { pid: u64, priority: u64 },
    CpuLoad,
    /// Known command, malformed arguments.
    Usage { usage: Usage },
    /// No such command.
    Unknown,
}

/// The usage line printed for malformed arguments.
pub fn usage_text(u: Usage) -> (r: &'static str)
    ensures
        u == Usage::SetTimer ==> r@ == "settimer [ms] [0|1]"@,
        u == Usage::Wait ==> r@ == "wait [ms]"@,
        u == Usage::CreateTask ==> r@ == "createtask [count]"@,
        u == Usage::KillTask ==> r@ == "kill [pid]"@,
        u == Usage::ChangePriority ==> r@ == "changepriority [pid] [priority]"@,
{
    match u {
        Usage::SetTimer => "settimer [ms] [0|1]",
        Usage::Wait => "wait [ms]",
        Usage::CreateTask => "createtask [count]",
        Usage::KillTask => "kill [pid]",
        Usage::ChangePriority => "changepriority [pid] [priority]",
    }
}

fn bytes_eq(a: &[u8], b: &[u8]) -> (r: bool)
    ensures
        r == (a@ == b@),
{
    if a.len() != b.len() {
        return false;
    }
    let mut i: usize = 0;
    while i < a.len()
        invariant
            a@.len() == b@.len(),
            i <= a@.len(),
            forall|j: int| 0 <= j < i ==> a@[j] == b@[j],
        decreases a@.len() - i,
    {
        if a[i] != b[i] {
            return false;
        }
        i = i + 1;
    }
    assert(a@ =~= b@);
    true
}

fn copy_range(s: &[u8], from: usize, to: usize) -> (r: Vec<u8>)
    requires
        from <= to <= s@.len(),
    ensures
        r@ == s@.subrange(from as int, to as int),
{
    let mut v: Vec<u8> = Vec::new();
    let mut i = from;
    while i < to
        invariant
            from <= i <= to <= s@.len(),
            v@ == s@.subrange(from as int, i as int),
        decreases to - i,
    {
        v.push(s[i]);
        i = i + 1;
        assert(v@ =~= s@.subrange(from as int, i as int));
    }
    v
}

/// Splits at the first space.
pub fn split_once_space(s: &[u8]) -> (r: (Vec<u8>, Vec<u8>))
    ensures
        r.0@ == split_word(s@).0,
        r.1@ == split_word(s@).1,
{
    match find_byte(s, 0x20, 0) {
        Some(i) => {
            assert(first_index(s@, 0x20, 0) == Some(i as int)) by {
                let c = choose|k: int| 0 <= k < s@.len() && s@[k] == 0x20 && forall|j: int| 0 <= j < k ==> s@[j] != 0x20;
                assert(c == i as int) by {
                    if c < i {
                    } else if c > i {
                    }
                }
            }
            let n = s.len();
            (copy_range(s, 0, i), copy_range(s, i + 1, n))
        },
        None => {
            assert(first_index(s@, 0x20, 0) is None);
            (copy_range(s, 0, s.len()), Vec::new())
        },
    }
}

/// The `k`-th argument of `args`.
pub fn nth_argument(args: &[u8], k: u64) -> (r: Option<Vec<u8>>)
    ensures
        r is None <==> nth_arg(args@, k as nat) is None,
        r is Some ==> r->Some_0@ == nth_arg(args@, k as nat)->Some_0,
    decreases k,
{
    if args.len() == 0 {
        return None;
    }
    let (word, rest) = split_once_space(args);
    if k == 0 {
        Some(word)
    } else {
        nth_argument(rest.as_slice(), k - 1)
    }
}

fn decimal_argument(args: &[u8], k: u64) -> (r: Option<u64>)
    ensures
        r == decimal_arg(args@, k as nat),
{
    match nth_argument(args, k) {
        Some(a) => parse_decimal(a.as_slice()),
        None => None,
    }
}

fn pid_argument(args: &[u8], k: u64) -> (r: Option<u64>)
    ensures
        r == pid_arg(args@, k as nat),
{
    match nth_argument(args, k) {
        Some(a) => parse_pid(a.as_slice()),
        None => None,
    }
}

/// The command named `word`, with its arguments read from `args`.
pub open spec fn command_of(word: Seq<u8>, args: Seq<u8>) -> Command {
    if word == "help".spec_bytes() {
        Command::Help
    } else if word == "cls".spec_bytes() {
        Command::Cls
    } else if word == "totalram".spec_bytes() {
        Command::TotalRam
    } else if word == "shutdown".spec_bytes() {
        Command::Shutdown
    } else if word == "cpuspeed".spec_bytes() {
        Command::CpuSpeed
    } else if word == "date".spec_bytes() {
        Command::Date
    } else if word == "listtask".spec_bytes() {
        Command::ListTask
    } else if word == "cpuload".spec_bytes() {
        Command::CpuLoad
    } else if word == "settimer".spec_bytes() {
        match (decimal_arg(args, 0), decimal_arg(args, 1)) {
            (Some(ms), Some(p)) => Command::SetTimer { ms, periodic: p > 0 },
            _ => Command::Usage { usage: Usage::SetTimer },
        }
    } else if word == "wait".spec_bytes() {
        match decimal_arg(args, 0) {
            Some(ms) => Command::Wait { ms },
            None => Command::Usage { usage: Usage::Wait },
        }
    } else if word == "createtask".spec_bytes() {
        match decimal_arg(args, 0) {
            Some(count) => Command::CreateTask { count },
            None => Command::Usage { usage: Usage::CreateTask },
        }
    } else if word == "killtask".spec_bytes() {
        match pid_arg(args, 0) {
            Some(pid) => Command::KillTask { pid },
            None => Command::Usage { usage: Usage::KillTask },
        }
    } else if word == "changepriority".spec_bytes() {
        match (pid_arg(args, 0), decimal_arg(args, 1)) {
            (Some(pid), Some(priority)) => Command::ChangePriority { pid, priority },
            _ => Command::Usage { usage: Usage::ChangePriority },
        }
    } else {
        Command::Unknown
    }
}

/// Chooses the command of `line`: its first word names it, the rest holds
/// its space-separated arguments.
pub fn execute_command(line: &[u8]) -> (r: Command)
    ensures
        r == command_of(split_word(line@).0, split_word(line@).1),
{
    let (word, args) = split_once_space(line);
    let w = word.as_slice();
    let a = args.as_slice();
    if bytes_eq(w, "help".as_bytes()) {
        Command::Help
    } else if bytes_eq(w, "cls".as_bytes()) {
        Command::Cls
    } else if bytes_eq(w, "totalram".as_bytes()) {
        Command::TotalRam
    } else if bytes_eq(w, "shutdown".as_bytes()) {
        Command::Shutdown
    } else if bytes_eq(w, "cpuspeed".as_bytes()) {
        Command::CpuSpeed
    } else if bytes_eq(w, "date".as_bytes()) {
        Command::Date
    } else if bytes_eq(w, "listtask".as_bytes()) {
        Command::ListTask
    } else if bytes_eq(w, "cpuload".as_bytes()) {
        Command::CpuLoad
    } else if bytes_eq(w, "settimer".as_bytes()) {
        match (decimal_argument(a, 0), decimal_argument(a, 1)) {
            (Some(ms), Some(p)) => Command::SetTimer { ms, periodic: p > 0 },
            _ => Command::Usage { usage: Usage::SetTimer },
        }
    } else if bytes_eq(w, "wait".as_bytes()) {
        match decimal_argument(a, 0) {
            Some(ms) => Command::Wait { ms },
            None => Command::Usage { usage: Usage::Wait },
        }
    } else if bytes_eq(w, "createtask".as_bytes()) {
        match decimal_argument(a, 0) {
            Some(count) => Command::CreateTask { count },
            None => Command::Usage { usage: Usage::CreateTask },
        }
    } else if bytes_eq(w, "killtask".as_bytes()) {
        match pid_argument(a, 0) {
            Some(pid) => Command::KillTask { pid },
            None => Command::Usage { usage: Usage::KillTask },
        }
    } else if bytes_eq(w, "changepriority".as_bytes()) {
        match (pid_argument(a, 0), decimal_argument(a, 1)) {
            (Some(pid), Some(priority)) => Command::ChangePriority { pid, priority },
            _ => Command::Usage { usage: Usage::ChangePriority },
        }
    } else {
        Command::Unknown
    }
}

/// What the shell does after a key.
pub enum ShellAction {
    /// A modifier key, or backspace on an empty line: nothing.
    Ignore,
    /// Backspace: the last character is gone; erase it on screen.
    Erase,
    /// Echo this character.
    Echo(u8),
    /// Enter: the finished line (possibly empty); the line starts over.
    Submit(Vec<u8>),
}

/// Keys that only change modifier state.
pub open spec fn is_modifier_key(key: u8) -> bool {
    key == 0x82 || key == 0x83 || key == 0x86 || key == 0x91 || key == 0x92 || key == 0x81 || key
        == 0x85
}

/// The shell's command line being typed.
pub struct LineEditor {
    buffer: Vec<u8>,
}

impl LineEditor {
    pub closed spec fn view(&self) -> Seq<u8> {
        self.buffer@
    }

    pub open spec fn inv(&self) -> bool {
        self@.len() <= CONSOLE_MAXCOMMANDBUFFERSIZE
    }

    pub fn new() -> (r: Self)
        ensures
            r@ == Seq::<u8>::empty(),
    {
        LineEditor { buffer: Vec::new() }
    }

    /// Applies one key: backspace removes the last character, enter hands
    /// the line over, modifier keys are ignored, any other key (tab as a
    /// space) is echoed and kept while the line has room.
    pub fn handle_key(&mut self, key: u8) -> (r: ShellAction)
        requires
            old(self).inv(),
        ensures
            final(self).inv(),
            key == KEY_BACKSPACE ==> (if old(self)@.len() > 0 {
                r is Erase && final(self)@ == old(self)@.drop_last()
            } else {
                r is Ignore && final(self)@ == old(self)@
            }),
            key == KEY_ENTER ==> (r matches ShellAction::Submit(line) && line@ == old(self)@) && final(self)@.len() == 0,
            key != KEY_BACKSPACE && key != KEY_ENTER && is_modifier_key(key) ==> r is Ignore && final(self)@ == old(self)@,
            key != KEY_BACKSPACE && key != KEY_ENTER && !is_modifier_key(key) ==> ({
                let c = if key == KEY_TAB { 0x20u8 } else { key };
                &&& r == ShellAction::Echo(c)
                &&& final(self)@ == if old(self)@.len() < CONSOLE_MAXCOMMANDBUFFERSIZE {
                    old(self)@.push(c)
                } else {
                    old(self)@
                }
            }),
    {
        if key == KEY_BACKSPACE {
            if self.buffer.len() > 0 {
                self.buffer.pop();
                return ShellAction::Erase;
            }
            return ShellAction::Ignore;
        }
        if key == KEY_ENTER {
            let n = self.buffer.len();
            let line = copy_range(self.buffer.as_slice(), 0, n);
            assert(line@ =~= old(self)@);
            self.buffer = Vec::new();
            return ShellAction::Submit(line);
        }
        if key == 0x82 || key == 0x83 || key == 0x86 || key == 0x91 || key == 0x92 || key == 0x81
            || key == 0x85 {
            return ShellAction::Ignore;
        }
        let c = if key == KEY_TAB { 0x20u8 } else { key };
        if self.buffer.len() < CONSOLE_MAXCOMMANDBUFFERSIZE {
            self.buffer.push(c);
        }
        ShellAction::Echo(c)
    }
}

} // verus!
