//! The command executor's own state: where the tool is, the record of the last
//! command issued, the slot holding the id of the tracked process, and the
//! argument lists of the operations.

use crate::text::{chars_of, concat_strs, owned, string_of, string_views, trim_chars, trimmed};
use vstd::utf8::{decode_utf8, valid_utf8};
use vstd::prelude::*;

verus! {

/// The tool's file name on the host platform.
pub fn binary_name(windows: bool) -> (r: &'static str)
    ensures
        r@ == if windows {
            "antumbra.exe"@
        } else {
            "antumbra"@
        },
{
    if windows {
        "antumbra.exe"
    } else {
        "antumbra"
    }
}

/// The directory the tool runs in: the binary's own directory when it is
/// usable, else the application's configuration directory.
pub fn choose_working_dir(binary_dir: Option<String>, binary_dir_usable: bool, config_dir: String) -> (r:
    String)
    ensures
        r == match binary_dir {
            Some(d) => if binary_dir_usable {
                d
            } else {
                config_dir
            },
            None => config_dir,
        },
{
    match binary_dir {
        Some(d) => if binary_dir_usable {
            d
        } else {
            config_dir
        },
        None => config_dir,
    }
}

/// A snapshot of the last command issued, for diagnostics.
#[derive(Debug, Clone)]
pub struct AntumbraCommandInfo {
    pub command: String,
    pub args: Vec<String>,
    pub working_dir: String,
    pub started_at: String,
}

/// The resolved binary and working directory of the tool.
pub struct AntumbraExecutor {
    binary_path: String,
    working_dir: String,
}

impl AntumbraExecutor {
    pub fn new(binary_path: String, working_dir: String) -> (r: AntumbraExecutor)
        ensures
            r.binary_path() == binary_path,
            r.working_dir() == working_dir,
    {
        AntumbraExecutor { binary_path, working_dir }
    }

    pub closed spec fn binary_path(&self) -> String {
        self.binary_path
    }

    pub closed spec fn working_dir(&self) -> String {
        self.working_dir
    }

    pub fn get_binary_path(&self) -> (r: &String)
        ensures
            *r == self.binary_path(),
    {
        &self.binary_path
    }

    pub fn get_working_dir(&self) -> (r: &String)
        ensures
            *r == self.working_dir(),
    {
        &self.working_dir
    }

    /// The record of issuing `args` at time `started_at`.
    pub fn command_info(&self, args: &Vec<String>, started_at: String) -> (r: AntumbraCommandInfo)
        ensures
            r.command@ == self.binary_path()@,
            string_views(r.args@) == string_views(args@),
            r.working_dir@ == self.working_dir()@,
            r.started_at == started_at,
    {
        let copied = copy_strings(args);
        AntumbraCommandInfo {
            command: self.binary_path.clone(),
            args: copied,
            working_dir: self.working_dir.clone(),
            started_at,
        }
    }
}

/// Two records hold the same texts.
pub open spec fn same_info(a: AntumbraCommandInfo, b: AntumbraCommandInfo) -> bool {
    &&& a.command@ == b.command@
    &&& string_views(a.args@) == string_views(b.args@)
    &&& a.working_dir@ == b.working_dir@
    &&& a.started_at@ == b.started_at@
}

fn copy_strings(v: &Vec<String>) -> (r: Vec<String>)
    ensures
        string_views(r@) == string_views(v@),
{
    let mut copied: Vec<String> = Vec::new();
    let mut i: usize = 0;
    while i < v.len()
        invariant
            i <= v.len(),
            string_views(copied@) == string_views(v@.subrange(0, i as int)),
        decreases v.len() - i,
    {
        let ghost before = copied@;
        let c = v[i].clone();
        copied.push(c);
        assert(string_views(copied@) =~= string_views(before).push(c@));
        assert(string_views(v@.subrange(0, i + 1)) =~= string_views(v@.subrange(0, i as int)).push(
            c@,
        ));
        i = i + 1;
    }
    assert(v@.subrange(0, v.len() as int) =~= v@);
    copied
}

fn copy_info(info: &AntumbraCommandInfo) -> (r: AntumbraCommandInfo)
    ensures
        same_info(r, *info),
{
    AntumbraCommandInfo {
        command: info.command.clone(),
        args: copy_strings(&info.args),
        working_dir: info.working_dir.clone(),
        started_at: info.started_at.clone(),
    }
}

/// The record of the last command issued; informational only.
pub struct CommandLog {
    last: Option<AntumbraCommandInfo>,
}

impl CommandLog {
    pub fn new() -> (r: CommandLog)
        ensures
            r.last() is None,
    {
        CommandLog { last: None }
    }

    pub closed spec fn last(&self) -> Option<AntumbraCommandInfo> {
        self.last
    }

    pub fn record(&mut self, info: AntumbraCommandInfo)
        ensures
            final(self).last() == Some(info),
    {
        self.last = Some(info);
    }

    pub fn get_last_command_info(&self) -> (r: Option<AntumbraCommandInfo>)
        ensures
            r is Some <==> self.last() is Some,
            r is Some ==> same_info(r->Some_0, self.last()->Some_0),
    {
        match &self.last {
            Some(info) => Some(copy_info(info)),
            None => None,
        }
    }
}

/// The id of the process that a cancel request would terminate, if any, and
/// whether an operation holds the right to run: at most one runs at a time.
pub struct ProcessSlot {
    pid: Option<u32>,
    active: bool,
}

impl ProcessSlot {
    pub fn new() -> (r: ProcessSlot)
        ensures
            r.pid() is None,
            !r.active(),
    {
        ProcessSlot { pid: None, active: false }
    }

    pub closed spec fn pid(&self) -> Option<u32> {
        self.pid
    }

    pub closed spec fn active(&self) -> bool {
        self.active
    }

    /// Admits a new operation unless one is already running.
    pub fn try_begin(&mut self) -> (r: bool)
        ensures
            r == !old(self).active(),
            final(self).active(),
            final(self).pid() == old(self).pid(),
    {
        if self.active {
            false
        } else {
            self.active = true;
            true
        }
    }

    /// Ends the running operation: its process is no longer tracked and a
    /// new operation may start.
    pub fn end(&mut self)
        ensures
            !final(self).active(),
            final(self).pid() is None,
    {
        self.active = false;
        self.pid = None;
    }

    pub fn current(&self) -> (r: Option<u32>)
        ensures
            r == self.pid(),
    {
        self.pid
    }

    /// Records the process just spawned.
    pub fn set_current_pid(&mut self, pid: Option<u32>)
        ensures
            final(self).pid() == pid,
            final(self).active() == old(self).active(),
    {
        self.pid = pid;
    }

    /// Forgets the tracked process; done on every way out of a running invocation.
    pub fn clear_current_pid(&mut self)
        ensures
            final(self).pid() is None,
            final(self).active() == old(self).active(),
    {
        self.pid = None;
    }

    /// Starts a cancel request: hands back the process to terminate, if one is
    /// tracked, and leaves the slot empty whatever the termination then does.
    pub fn take_for_cancel(&mut self) -> (r: Option<u32>)
        ensures
            r == old(self).pid(),
            final(self).pid() is None,
            final(self).active() == old(self).active(),
    {
        let r = self.pid;
        self.pid = None;
        r
    }
}

/// The argument list of a device operation: `head`, then the download agent
/// and, if given, the preloader.
pub fn device_args(head: Vec<String>, da_path: String, preloader_path: Option<String>) -> (r: Vec<
    String,
>)
    ensures
        string_views(r@) == string_views(head@) + seq!["-d"@, da_path@] + match preloader_path {
            Some(p) => seq!["-p"@, p@],
            None => Seq::empty(),
        },
{
    let mut args = head;
    let ghost h = string_views(args@);
    args.push(owned("-d"));
    args.push(da_path);
    let ghost with_da = args@;
    assert(string_views(args@) =~= h + seq!["-d"@, da_path@]);
    match preloader_path {
        Some(p) => {
            args.push(owned("-p"));
            args.push(p);
            assert(string_views(args@) =~= h + seq!["-d"@, da_path@] + seq!["-p"@, p@]);
        },
        None => {
            assert(string_views(args@) =~= h + seq!["-d"@, da_path@] + Seq::<Seq<char>>::empty());
        },
    }
    args
}

/// `["--skip", p]` for each partition `p` to leave out.
pub open spec fn skip_flags(skip: Seq<Seq<char>>) -> Seq<Seq<char>>
    decreases skip.len(),
{
    if skip.len() == 0 {
        Seq::empty()
    } else {
        skip_flags(skip.drop_last()) + seq!["--skip"@, skip.last()]
    }
}

/// The argument list that reads every partition into `output_dir`.
pub fn read_all_args(
    output_dir: String,
    da_path: String,
    preloader_path: Option<String>,
    skip_partitions: Vec<String>,
) -> (r: Vec<String>)
    ensures
        string_views(r@) == seq!["read-all"@, output_dir@, "-d"@, da_path@] + match preloader_path {
            Some(p) => seq!["-p"@, p@],
            None => Seq::empty(),
        } + skip_flags(string_views(skip_partitions@)),
{
    let mut head: Vec<String> = Vec::new();
    head.push(owned("read-all"));
    head.push(output_dir);
    let ghost hv = string_views(head@);
    assert(hv =~= seq!["read-all"@, output_dir@]);
    let mut args = device_args(head, da_path, preloader_path);
    let ghost base = string_views(args@);
    assert(base =~= seq!["read-all"@, output_dir@, "-d"@, da_path@] + match preloader_path {
        Some(p) => seq!["-p"@, p@],
        None => Seq::empty(),
    });
    let mut i: usize = 0;
    while i < skip_partitions.len()
        invariant
            i <= skip_partitions.len(),
            string_views(args@) == base + skip_flags(string_views(skip_partitions@.subrange(0, i as int))),
        decreases skip_partitions.len() - i,
    {
        let ghost before = string_views(args@);
        args.push(owned("--skip"));
        args.push(skip_partitions[i].clone());
        proof {
            let s = string_views(skip_partitions@.subrange(0, i + 1));
            assert(s.drop_last() =~= string_views(skip_partitions@.subrange(0, i as int)));
            assert(s.last() == skip_partitions@[i as int]@);
            assert(string_views(args@) =~= before + seq!["--skip"@, s.last()]);
        }
        i = i + 1;
    }
    assert(skip_partitions@.subrange(0, skip_partitions.len() as int) =~= skip_partitions@);
    args
}

/// What `String::from_utf8_lossy` makes of a byte sequence.
pub uninterp spec fn lossy_text(b: Seq<u8>) -> Seq<char>;

/// Relies on `String::from_utf8_lossy`: the result depends on the bytes alone,
/// and well-formed UTF-8 is decoded unchanged.
#[verifier::external_body]
pub(crate) fn lossy(b: &Vec<u8>) -> (r: String)
    ensures
        r@ == lossy_text(b@),
        valid_utf8(b@) ==> r@ == decode_utf8(b@),
{
    String::from_utf8_lossy(b.as_slice()).into_owned()
}

/// The result of a run without streaming: its standard output on success,
/// else an error carrying its standard error.
pub fn plain_outcome(success: bool, stdout: &Vec<u8>, stderr: &Vec<u8>) -> (r: Result<String, String>)
    ensures
        success ==> r is Ok && r->Ok_0@ == lossy_text(stdout@),
        !success ==> r is Err && r->Err_0@ == "Antumbra failed: "@ + lossy_text(stderr@),
{
    if success {
        Ok(lossy(stdout))
    } else {
        Err(concat_strs("Antumbra failed: ", lossy(stderr).as_str()))
    }
}

/// The version a `--version` run printed: its output, trimmed.
pub fn version_text(stdout: &Vec<u8>) -> (r: String)
    ensures
        r@ == trimmed(lossy_text(stdout@)),
{
    string_of(&trim_chars(&chars_of(lossy(stdout).as_str())))
}

} // verus!
