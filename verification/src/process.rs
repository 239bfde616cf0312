//! Spawning processes for the config: the decision whether to spawn, the
//! command line, and the name of the socket that hands the process's pipes over.
use vstd::prelude::*;

verus! {

/// How a spawned process exited.
#[derive(Debug, Clone)]
pub struct ExitInfo {
    pub exit_code: Option<i32>,
    pub exit_msg: Option<String>,
}

impl Default for ExitInfo {
    fn default() -> (r: Self)
        ensures
            r.exit_code is None,
            r.exit_msg is None,
    {
        ExitInfo { exit_code: None, exit_msg: None }
    }
}

/// What the config learns of a process it spawned.
pub struct SpawnData {
    pub pid: u32,
    pub fd_socket_path: String,
    pub has_stdin: bool,
    pub has_stdout: bool,
    pub has_stderr: bool,
}

/// The exit of a spawned process, as reported to the config.
#[derive(Debug)]
pub struct WaitOutput {
    pub exit_code: Option<i32>,
    pub exit_msg: Option<String>,
}

/// The decimal digit character of `d`.
pub open spec fn digit_char(d: nat) -> char {
    if d == 0 {
        '0'
    } else if d == 1 {
        '1'
    } else if d == 2 {
        '2'
    } else if d == 3 {
        '3'
    } else if d == 4 {
        '4'
    } else if d == 5 {
        '5'
    } else if d == 6 {
        '6'
    } else if d == 7 {
        '7'
    } else if d == 8 {
        '8'
    } else {
        '9'
    }
}

/// The decimal representation of `n`, without leading zeros.
pub open spec fn decimal(n: nat) -> Seq<char>
    decreases n,
{
    if n < 10 {
        seq![digit_char(n)]
    } else {
        decimal(n / 10).push(digit_char(n % 10))
    }
}

fn digit_str(d: u32) -> (r: &'static str)
    requires
        d < 10,
    ensures
        r@ == seq![digit_char(d as nat)],
{
    proof {
        reveal_strlit("0");
        reveal_strlit("1");
        reveal_strlit("2");
        reveal_strlit("3");
        reveal_strlit("4");
        reveal_strlit("5");
        reveal_strlit("6");
        reveal_strlit("7");
        reveal_strlit("8");
        reveal_strlit("9");
    }
    if d == 0 {
        "0"
    } else if d == 1 {
        "1"
    } else if d == 2 {
        "2"
    } else if d == 3 {
        "3"
    } else if d == 4 {
        "4"
    } else if d == 5 {
        "5"
    } else if d == 6 {
        "6"
    } else if d == 7 {
        "7"
    } else if d == 8 {
        "8"
    } else {
        "9"
    }
}

/// Appends the decimal representation of `n` to `s`.
fn push_decimal(s: &mut String, n: u32)
    ensures
        final(s)@ == old(s)@ + decimal(n as nat),
    decreases n,
{
    if n < 10 {
        s.append(digit_str(n));
    } else {
        push_decimal(s, n / 10);
        s.append(digit_str(n % 10));
        assert(old(s)@ + decimal((n / 10) as nat) + seq![digit_char((n % 10) as nat)] =~= old(s)@
            + decimal(n as nat));
    }
}

/// The name of the socket through which the pipes of the process `pid` are
/// handed to the config.
pub open spec fn spec_fd_socket_name(pid: u32) -> Seq<char> {
    "pinnacle-fd-"@ + decimal(pid as nat) + ".sock"@
}

/// The name of the socket through which the pipes of the process `pid` are
/// handed to the config: `pinnacle-fd-{pid}.sock`.
pub fn fd_socket_name(pid: u32) -> (r: String)
    ensures
        r@ == spec_fd_socket_name(pid),
{
    let mut s = String::from_str("pinnacle-fd-");
    push_decimal(&mut s, pid);
    s.append(".sock");
    s
}

/// The views of a list of strings.
pub open spec fn strings_view(v: Seq<String>) -> Seq<Seq<char>> {
    v.map_values(|s: String| s@)
}

/// The programs spawned so far, each at most once, so that spawning with
/// `once` can skip a program that was already started.
#[derive(Debug)]
pub struct SpawnHistory {
    spawned_already: Vec<String>,
}

impl SpawnHistory {
    /// The programs recorded, in order.
    pub closed spec fn programs(self) -> Seq<Seq<char>> {
        strings_view(self.spawned_already@)
    }

    /// No program is recorded twice.
    pub closed spec fn wf(self) -> bool {
        forall|i: int, j: int|
            0 <= i < self.programs().len() && 0 <= j < self.programs().len() && i != j
                ==> self.programs()[i] != self.programs()[j]
    }

    /// No programs spawned yet.
    pub fn new() -> (r: Self)
        ensures
            r.wf(),
            r.programs() == Seq::<Seq<char>>::empty(),
    {
        let r = SpawnHistory { spawned_already: Vec::new() };
        assert(r.programs() =~= Seq::<Seq<char>>::empty());
        r
    }

    /// Whether `program` was spawned before.
    pub fn contains(&self, program: &String) -> (r: bool)
        ensures
            r == self.programs().contains(program@),
    {
        let mut i: usize = 0;
        while i < self.spawned_already.len()
            invariant
                i <= self.spawned_already.len(),
                forall|j: int| 0 <= j < i ==> self.programs()[j] != program@,
            decreases self.spawned_already.len() - i,
        {
            if self.spawned_already[i].eq(program) {
                assert(self.programs()[i as int] == program@);
                return true;
            }
            i = i + 1;
        }
        false
    }

    /// Records that `program` was spawned.
    pub fn record(&mut self, program: String)
        requires
            old(self).wf(),
        ensures
            final(self).wf(),
            final(self).programs() == if old(self).programs().contains(program@) {
                old(self).programs()
            } else {
                old(self).programs().push(program@)
            },
    {
        if !self.contains(&program) {
            let ghost before = self.programs();
            self.spawned_already.push(program);
            assert(self.programs() =~= before.push(program@));
        }
    }
}

/// A process to start: the program, and its arguments.
#[derive(Debug)]
pub struct SpawnCommand {
    /// The config's own first word, by which `once` and `unique` know the process.
    pub arg0: String,
    pub program: String,
    pub args: Vec<String>,
}

/// Why a process is not spawned.
#[derive(Debug, Clone, Copy, PartialEq, Eq, Structural)]
pub enum SpawnRefusal {
    /// The command is empty.
    EmptyCommand,
    /// The program was spawned before and should be spawned only once.
    AlreadySpawned,
    /// A process of the program started by the compositor is still running.
    AlreadyRunning,
}

fn copy_string(s: &String) -> (r: String)
    ensures
        r@ == s@,
{
    s.clone()
}

/// Decides whether to spawn `cmd` (behind `shell_cmd`, if any) and with what
/// command line.
///
/// `already_running` tells whether a process of the program, started by the
/// compositor, is running; it is read only when `unique` is set.
pub fn spawn_command(
    history: &SpawnHistory,
    cmd: &Vec<String>,
    shell_cmd: &Vec<String>,
    unique: bool,
    once: bool,
    already_running: bool,
) -> (r: Result<SpawnCommand, SpawnRefusal>)
    ensures
        cmd@.len() == 0 ==> r == Err::<SpawnCommand, SpawnRefusal>(SpawnRefusal::EmptyCommand),
        cmd@.len() > 0 && once && history.programs().contains(cmd@[0]@) ==> r == Err::<
            SpawnCommand,
            SpawnRefusal,
        >(SpawnRefusal::AlreadySpawned),
        cmd@.len() > 0 && !(once && history.programs().contains(cmd@[0]@)) && unique
            && already_running ==> r == Err::<SpawnCommand, SpawnRefusal>(
            SpawnRefusal::AlreadyRunning,
        ),
        cmd@.len() > 0 && !(once && history.programs().contains(cmd@[0]@)) && !(unique
            && already_running) ==> (r matches Ok(c) && {
            let line = strings_view(shell_cmd@ + cmd@);
            &&& c.arg0@ == cmd@[0]@
            &&& c.program@ == line[0]
            &&& strings_view(c.args@) == line.drop_first()
        }),
{
    if cmd.len() == 0 {
        return Err(SpawnRefusal::EmptyCommand);
    }
    let arg0 = copy_string(&cmd[0]);
    if once && history.contains(&arg0) {
        return Err(SpawnRefusal::AlreadySpawned);
    }
    if unique && already_running {
        return Err(SpawnRefusal::AlreadyRunning);
    }
    let ghost full = shell_cmd@ + cmd@;
    let mut words: Vec<String> = Vec::new();
    let mut i: usize = 0;
    while i < shell_cmd.len()
        invariant
            i <= shell_cmd.len(),
            full == shell_cmd@ + cmd@,
            words@.len() == i,
            forall|k: int| 0 <= k < i ==> (#[trigger] words@[k])@ == full[k]@,
        decreases shell_cmd.len() - i,
    {
        let word = copy_string(&shell_cmd[i]);
        words.push(word);
        i = i + 1;
    }
    let mut j: usize = 0;
    while j < cmd.len()
        invariant
            j <= cmd.len(),
            full == shell_cmd@ + cmd@,
            words@.len() == shell_cmd@.len() + j,
            forall|k: int| 0 <= k < words@.len() ==> (#[trigger] words@[k])@ == full[k]@,
        decreases cmd.len() - j,
    {
        let word = copy_string(&cmd[j]);
        words.push(word);
        j = j + 1;
    }
    let program = words.remove(0);
    proof {
        let line = strings_view(full);
        assert(strings_view(words@) =~= line.drop_first()) by {
            assert forall|k: int| 0 <= k < words@.len() implies #[trigger] strings_view(words@)[k]
                == line.drop_first()[k] by {
                assert(words@[k]@ == full[k + 1]@);
            }
        }
    }
    Ok(SpawnCommand { arg0, program, args: words })
}

impl SpawnHistory {
    /// Records a decided spawn once it has been carried out: the program is
    /// recorded where the process started (`spawned`), and nothing changes
    /// where it did not.
    pub fn spawn_finished(&mut self, command: &SpawnCommand, spawned: bool)
        requires
            old(self).wf(),
        ensures
            final(self).wf(),
            final(self).programs() == if spawned && !old(self).programs().contains(command.arg0@) {
                old(self).programs().push(command.arg0@)
            } else {
                old(self).programs()
            },
    {
        if spawned {
            let arg0 = copy_string(&command.arg0);
            self.record(arg0);
        }
    }
}

proof fn lemma_decimal_len(n: nat)
    ensures
        decimal(n).len() >= 1,
    decreases n,
{
    if n >= 10 {
        lemma_decimal_len(n / 10);
    }
}

proof fn lemma_digit_char_injective(a: nat, b: nat)
    requires
        a < 10,
        b < 10,
        digit_char(a) == digit_char(b),
    ensures
        a == b,
{
}

/// Distinct numbers have distinct decimal representations.
pub proof fn lemma_decimal_injective(a: nat, b: nat)
    requires
        decimal(a) == decimal(b),
    ensures
        a == b,
    decreases a,
{
    lemma_decimal_len(a);
    lemma_decimal_len(b);
    if a < 10 && b < 10 {
        assert(decimal(a)[0] == digit_char(a));
        assert(decimal(b)[0] == digit_char(b));
        lemma_digit_char_injective(a, b);
    } else if a >= 10 && b >= 10 {
        assert(decimal(a).last() == digit_char(a % 10));
        assert(decimal(b).last() == digit_char(b % 10));
        lemma_digit_char_injective(a % 10, b % 10);
        assert(decimal(a).drop_last() =~= decimal(a / 10));
        assert(decimal(b).drop_last() =~= decimal(b / 10));
        lemma_decimal_injective(a / 10, b / 10);
    } else if a < 10 {
        lemma_decimal_len(b / 10);
        assert(decimal(b).len() == decimal(b / 10).len() + 1);
    } else {
        lemma_decimal_len(a / 10);
        assert(decimal(a).len() == decimal(a / 10).len() + 1);
    }
}

/// Each process gets its own pipe socket: distinct pids give distinct
/// socket names.
pub proof fn law_fd_socket_names_distinct(pid1: u32, pid2: u32)
    requires
        pid1 != pid2,
    ensures
        spec_fd_socket_name(pid1) != spec_fd_socket_name(pid2),
{
    let p = "pinnacle-fd-"@;
    let q = ".sock"@;
    if spec_fd_socket_name(pid1) == spec_fd_socket_name(pid2) {
        let a = decimal(pid1 as nat);
        let b = decimal(pid2 as nat);
        let x = p + a + q;
        let y = p + b + q;
        assert(x.len() == y.len());
        assert(a.len() == b.len());
        assert forall|i: int| 0 <= i < a.len() implies a[i] == b[i] by {
            assert(x[p.len() + i] == a[i]);
            assert(y[p.len() + i] == b[i]);
        }
        assert(a =~= b);
        lemma_decimal_injective(pid1 as nat, pid2 as nat);
    }
}

/// A program spawned with `once` is not spawned again: once recorded, every
/// later decision for it with `once` refuses.
pub proof fn law_once_spawns_at_most_once(programs: Seq<Seq<char>>, program: Seq<char>)
    ensures
        (if programs.contains(program) {
            programs
        } else {
            programs.push(program)
        }).contains(program),
{
    if !programs.contains(program) {
        assert(programs.push(program)[programs.len() as int] == program);
    }
}

} // verus!
