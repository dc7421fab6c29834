//! The command line: arguments to commands.

use vstd::prelude::*;
use vstd::string::StringSliceAdditionalSpecFns;
use crate::bytes::arr32;
use crate::encoding::{hex_decode, hex_decodable, hex_bytes};
use crate::text::{chars_of, push_char, decimal_text, decimal, digits_value, all_digits};

verus! {

/// A command. Paths are carried as the text they were given in.
#[derive(Debug, Clone, PartialEq, Eq)]
pub enum CliCommand {
    Init { data_dir: String },
    Daemon { data_dir: String, port: u16 },
    Ping { socket: String },
    Status { data_dir: String, socket: Option<String> },
    Sync { socket: String },
    GcCas { data_dir: String, socket: Option<String> },
    DrivePut { socket: String, file_path: String, vpath: String },
    DriveList { socket: String, vpath: String },
    ChatSend { socket: String, channel_id: [u8; 32], message: String },
    CommunityPost { socket: String, channel_id: [u8; 32], title: String, content: String },
    Unknown(String),
}

/// Whether the text starts with `--`.
pub open spec fn is_flag(a: Seq<char>) -> bool {
    a.len() >= 2 && a[0] == '-' && a[1] == '-'
}

/// `str::parse::<u16>`: an optional `+`, then at least one digit, worth at most 65535.
pub open spec fn parse_u16(s: Seq<char>) -> Option<u16> {
    let d = if s.len() > 0 && s[0] == '+' { s.skip(1) } else { s };
    if d.len() > 0 && all_digits(d) && digits_value(d) <= 65535 { Some(digits_value(d) as u16) } else { None }
}

proof fn lemma_digits_grow(d: Seq<char>, k: int)
    requires
        0 <= k <= d.len(),
        all_digits(d),
    ensures
        digits_value(d) >= digits_value(d.take(k)),
    decreases d.len() - k,
{
    if k < d.len() {
        lemma_digits_grow(d, k + 1);
        assert(d.take(k + 1).drop_last() =~= d.take(k));
    } else {
        assert(d.take(k) =~= d);
    }
}

/// The text as a `u16`, as `str::parse` reads it.
pub fn parse_u16_exec(s: &str) -> (r: Option<u16>)
    ensures
        r == parse_u16(s@),
{
    let v = chars_of(s);
    let start: usize = if v.len() > 0 && v[0] == '+' { 1 } else { 0 };
    let ghost d = if s@.len() > 0 && s@[0] == '+' { s@.skip(1) } else { s@ };
    proof {
        assert(d =~= v@.skip(start as int));
    }
    if v.len() == start {
        return None;
    }
    let mut acc: u32 = 0;
    let mut i: usize = start;
    while i < v.len()
        invariant
            start <= i <= v@.len(),
            d == v@.skip(start as int),
            d == (if s@.len() > 0 && s@[0] == '+' { s@.skip(1) } else { s@ }),
            d.len() > 0,
            acc == digits_value(d.take(i - start)),
            acc <= 65535,
            all_digits(d.take(i - start)),
        decreases v@.len() - i,
    {
        let c = v[i];
        proof {
            assert(d.take(i - start + 1).drop_last() =~= d.take(i - start));
            assert(d.take(i - start + 1).last() == c);
        }
        if c < '0' || c > '9' {
            proof {
                assert(d[i - start] == c);
                assert(!all_digits(d));
            }
            return None;
        }
        let digit: u32 = (c as u32) - 48;
        let ghost prev = acc;
        acc = acc * 10 + digit;
        proof {
            assert(all_digits(d.take(i - start + 1)));
            assert(acc == digits_value(d.take(i - start + 1)));
        }
        if acc > 65535 {
            proof {
                if all_digits(d) {
                    lemma_digits_grow(d, i - start + 1);
                    assert(digits_value(d) > 65535);
                }
            }
            return None;
        }
        i = i + 1;
    }
    proof {
        assert(d.take(i - start) =~= d);
    }
    Some(acc as u16)
}

/// The parser's state: data dir, socket, whether the socket was given, port, the
/// two verbs, and the positional arguments.
pub type ScanState = (Seq<char>, Seq<char>, bool, u16, Seq<char>, Seq<char>, Seq<Seq<char>>);

/// Whether a first verb takes a second one.
pub open spec fn takes_subverb(v: Seq<char>) -> bool {
    v == "drive"@ || v == "chat"@ || v == "community"@ || v == "daemon"@
}

/// One step of the scan at argument `i`: the new state and the next argument.
pub open spec fn scan_step(args: Seq<Seq<char>>, i: int, st: ScanState) -> (ScanState, int) {
    let (data_dir, socket, explicit, port, verb1, verb2, positional) = st;
    let a = args[i];
    let has_value = i + 1 < args.len();
    if a == "--data-dir"@ {
        if has_value { ((args[i + 1], socket, explicit, port, verb1, verb2, positional), i + 2) } else { (st, i + 1) }
    } else if a == "--socket"@ {
        if has_value { ((data_dir, args[i + 1], true, port, verb1, verb2, positional), i + 2) } else { (st, i + 1) }
    } else if a == "--port"@ {
        if has_value {
            match parse_u16(args[i + 1]) {
                Some(p) => ((data_dir, "127.0.0.1:"@ + decimal(p as nat), explicit, p, verb1, verb2, positional), i + 2),
                None => (st, i + 2),
            }
        } else {
            (st, i + 1)
        }
    } else if !is_flag(a) {
        if verb1.len() == 0 {
            ((data_dir, socket, explicit, port, a, verb2, positional), i + 1)
        } else if verb2.len() == 0 && takes_subverb(verb1) {
            ((data_dir, socket, explicit, port, verb1, a, positional), i + 1)
        } else {
            ((data_dir, socket, explicit, port, verb1, verb2, positional.push(a)), i + 1)
        }
    } else {
        (st, i + 1)
    }
}

/// The state after scanning the arguments from `i` on.
pub open spec fn scan(args: Seq<Seq<char>>, i: int, st: ScanState) -> ScanState
    decreases args.len() - i,
{
    if i < 0 || i >= args.len() {
        st
    } else {
        let (st2, j) = scan_step(args, i, st);
        if j <= i { st2 } else { scan(args, j, st2) }
    }
}

/// The state before any argument: data dir `.nex`, socket and port 44555.
pub open spec fn initial_scan() -> ScanState {
    (".nex"@, "127.0.0.1:44555"@, false, 44555, Seq::empty(), Seq::empty(), Seq::empty())
}

/// The positional arguments joined by single spaces.
pub open spec fn join_space(parts: Seq<Seq<char>>) -> Seq<char>
    decreases parts.len(),
{
    if parts.len() == 0 {
        Seq::empty()
    } else if parts.len() == 1 {
        parts[0]
    } else {
        join_space(parts.drop_last()) + " "@ + parts.last()
    }
}

/// The positional arguments from `k` on, joined; nothing when there are fewer than `k`.
pub open spec fn rest_joined(pos: Seq<Seq<char>>, k: int) -> Seq<char> {
    if pos.len() >= k { join_space(pos.skip(k)) } else { Seq::empty() }
}

/// The last component of a path, as `Path::file_name` finds it.
pub uninterp spec fn path_file_name(p: Seq<char>) -> Option<Seq<char>>;

/// `Path::file_name` of a text path, as text. Claimed: a function of the path;
/// the name of a path given as text is text, so nothing is lost converting it.
#[verifier::external_body]
fn file_name_of(p: &str) -> (r: Option<String>)
    ensures
        r is Some <==> path_file_name(p@) is Some,
        r matches Some(n) ==> path_file_name(p@) == Some(n@),
{
    match std::path::Path::new(p).file_name() {
        Some(n) => Some(n.to_string_lossy().to_string()),
        None => None,
    }
}

/// The channel a hex argument names: its bytes when it is 32 bytes of hex, else zeros.
pub open spec fn channel_arg(h: Seq<char>) -> Seq<u8> {
    let b = vstd::utf8::encode_utf8(h);
    if hex_decodable(b) && hex_bytes(b).len() == 32 { hex_bytes(b) } else { Seq::new(32, |i: int| 0u8) }
}

/// Whether `cmd` is the command a final scan state stands for.
pub open spec fn command_of(cmd: CliCommand, st: ScanState) -> bool {
    let (data_dir, socket, explicit, port, verb1, verb2, pos) = st;
    let sock_opt = |o: Option<String>| if explicit { o matches Some(s) && s@ == socket } else { o is None };
    if verb1 == "init"@ {
        cmd matches CliCommand::Init { data_dir: d } && d@ == data_dir
    } else if verb1 == "daemon"@ {
        cmd matches CliCommand::Daemon { data_dir: d, port: p } && d@ == data_dir && p == port
    } else if verb1 == "ping"@ {
        cmd matches CliCommand::Ping { socket: s } && s@ == socket
    } else if verb1 == "status"@ {
        cmd matches CliCommand::Status { data_dir: d, socket: o } && d@ == data_dir && sock_opt(o)
    } else if verb1 == "sync"@ {
        cmd matches CliCommand::Sync { socket: s } && s@ == socket
    } else if verb1 == "gc"@ {
        cmd matches CliCommand::GcCas { data_dir: d, socket: o } && d@ == data_dir && sock_opt(o)
    } else if verb1 == "drive"@ {
        if verb2 == "put"@ {
            let file = if pos.len() > 0 { pos[0] } else { "data.txt"@ };
            let vpath = if pos.len() > 1 { pos[1] } else {
                "/"@ + match path_file_name(file) { Some(n) => n, None => Seq::empty() }
            };
            cmd matches CliCommand::DrivePut { socket: s, file_path: f, vpath: v } && s@ == socket && f@ == file && v@ == vpath
        } else if verb2 == "ls"@ || verb2 == "list"@ {
            let vpath = if pos.len() > 0 { pos[0] } else { "/"@ };
            cmd matches CliCommand::DriveList { socket: s, vpath: v } && s@ == socket && v@ == vpath
        } else {
            cmd matches CliCommand::Unknown(u) && u@ == "drive "@ + verb2
        }
    } else if verb1 == "chat"@ {
        if verb2 == "send"@ {
            let chan = if pos.len() > 0 { pos[0] } else { Seq::empty() };
            cmd matches CliCommand::ChatSend { socket: s, channel_id: c, message: m }
                && s@ == socket && c@ == channel_arg(chan) && m@ == rest_joined(pos, 1)
        } else {
            cmd matches CliCommand::Unknown(u) && u@ == "chat "@ + verb2
        }
    } else if verb1 == "community"@ {
        if verb2 == "post"@ {
            let chan = if pos.len() > 0 { pos[0] } else { Seq::empty() };
            let title = if pos.len() > 1 { pos[1] } else { "Untitled Post"@ };
            cmd matches CliCommand::CommunityPost { socket: s, channel_id: c, title: t, content: b }
                && s@ == socket && c@ == channel_arg(chan) && t@ == title && b@ == rest_joined(pos, 2)
        } else {
            cmd matches CliCommand::Unknown(u) && u@ == "community "@ + verb2
        }
    } else {
        cmd matches CliCommand::Unknown(u) && u@ == verb1
    }
}

fn str_eq(a: &str, b: &str) -> (r: bool)
    ensures
        r == (a@ == b@),
{
    let x = chars_of(a);
    let y = chars_of(b);
    if x.len() != y.len() {
        return false;
    }
    let mut i: usize = 0;
    while i < x.len()
        invariant
            i <= x@.len(),
            x@.len() == y@.len(),
            x@ == a@,
            y@ == b@,
            forall|j: int| 0 <= j < i ==> x@[j] == y@[j],
        decreases x@.len() - i,
    {
        if x[i] != y[i] {
            return false;
        }
        i = i + 1;
    }
    assert(x@ =~= y@);
    true
}

fn flag_like(a: &str) -> (r: bool)
    ensures
        r == is_flag(a@),
{
    let x = chars_of(a);
    x.len() >= 2 && x[0] == '-' && x[1] == '-'
}

fn copy_string(s: &String) -> (r: String)
    ensures
        r@ == s@,
{
    s.as_str().to_string()
}

fn join_from(pos: &Vec<String>, k: usize) -> (r: String)
    ensures
        r@ == rest_joined(pos@.map_values(|s: String| s@), k as int),
{
    let ghost pv = pos@.map_values(|s: String| s@);
    let mut out = String::new();
    if pos.len() < k {
        return out;
    }
    let ghost rest = pv.skip(k as int);
    let mut i: usize = k;
    while i < pos.len()
        invariant
            k <= i <= pos@.len(),
            pv == pos@.map_values(|s: String| s@),
            rest == pv.skip(k as int),
            out@ == join_space(rest.take(i - k)),
        decreases pos@.len() - i,
    {
        proof {
            assert(rest.take(i - k + 1).drop_last() =~= rest.take(i - k));
            assert(rest.take(i - k + 1).last() == pos@[i as int]@);
        }
        if i > k {
            push_char(&mut out, ' ');
        }
        vstd::string::StringExecFns::append(&mut out, pos[i].as_str());
        proof {
            if i == k {
                assert(rest.take(1) =~= seq![pos@[i as int]@]);
                assert(join_space(rest.take(1)) == rest.take(1)[0]);
            }
            assert(" "@ == seq![' ']) by {
                reveal_strlit(" ");
            }
        }
        i = i + 1;
    }
    proof {
        assert(rest.take(i - k) =~= rest);
    }
    out
}

fn channel_from(pos: &Vec<String>) -> (r: [u8; 32])
    ensures
        r@ == channel_arg(if pos@.len() > 0 { pos@[0]@ } else { Seq::empty() }),
{
    let hexed = if pos.len() > 0 { copy_string(&pos[0]) } else { String::new() };
    let mut channel_id = [0u8; 32];
    assert(channel_id@ =~= Seq::new(32, |i: int| 0u8));
    match hex_decode(hexed.as_str()) {
        Ok(b) => {
            if b.len() == 32 {
                channel_id = arr32(b.as_slice());
            }
        }
        Err(_) => {}
    }
    channel_id
}

pub struct NexCli;

impl NexCli {
    /// Reads `--data-dir`, `--socket` and `--port` options (each with a value;
    /// a `--port` value that is not a `u16` is skipped), a verb, a second verb
    /// for `drive`, `chat`, `community` and `daemon`, and positional arguments;
    /// other `--` options are ignored. The command follows from the verbs.
    pub fn parse_args(args: &[String]) -> (r: CliCommand)
        ensures
            command_of(r, scan(args@.map_values(|s: String| s@), 0, initial_scan())),
    {
        let ghost av = args@.map_values(|s: String| s@);
        let mut data_dir = ".nex".to_string();
        let mut socket = "127.0.0.1:44555".to_string();
        let mut explicit_socket = false;
        let mut port: u16 = 44555;
        let mut verb1 = String::new();
        let mut verb2 = String::new();
        let mut positional: Vec<String> = Vec::new();
        proof {
            assert(positional@.map_values(|s: String| s@) =~= Seq::<Seq<char>>::empty());
            assert(verb1@ =~= Seq::<char>::empty());
            assert(verb2@ =~= Seq::<char>::empty());
        }
        let mut i: usize = 0;
        while i < args.len()
            invariant
                i <= args@.len(),
                av.len() == args@.len(),
                av == args@.map_values(|s: String| s@),
                scan(av, 0, initial_scan()) == scan(av, i as int, (data_dir@, socket@, explicit_socket, port,
                    verb1@, verb2@, positional@.map_values(|s: String| s@))),
            decreases args@.len() - i,
        {
            let ghost st = (data_dir@, socket@, explicit_socket, port, verb1@, verb2@, positional@.map_values(|s: String| s@));
            let ghost i0 = i;
            proof {
                assert(av[i as int] == args@[i as int]@);
                if i + 1 < args@.len() {
                    assert(av[i + 1] == args@[i + 1]@);
                }
            }
            let a = args[i].as_str();
            let has_value = i + 1 < args.len();
            if str_eq(a, "--data-dir") {
                if has_value {
                    data_dir = copy_string(&args[i + 1]);
                    i = i + 1;
                }
            } else if str_eq(a, "--socket") {
                if has_value {
                    socket = copy_string(&args[i + 1]);
                    explicit_socket = true;
                    i = i + 1;
                }
            } else if str_eq(a, "--port") {
                if has_value {
                    match parse_u16_exec(args[i + 1].as_str()) {
                        Some(p) => {
                            port = p;
                            let mut s = "127.0.0.1:".to_string();
                            let num = decimal_text(p as u64);
                            vstd::string::StringExecFns::append(&mut s, num.as_str());
                            socket = s;
                        }
                        None => {}
                    }
                    i = i + 1;
                }
            } else if !flag_like(a) {
                if verb1.as_str().is_empty() {
                    verb1 = a.to_string();
                } else if verb2.as_str().is_empty() && (str_eq(verb1.as_str(), "drive") || str_eq(verb1.as_str(), "chat")
                    || str_eq(verb1.as_str(), "community") || str_eq(verb1.as_str(), "daemon")) {
                    verb2 = a.to_string();
                } else {
                    positional.push(a.to_string());
                    proof {
                        assert(positional@.map_values(|s: String| s@) =~= st.6.push(a@));
                    }
                }
            }
            i = i + 1;
            proof {
                let (st2, j) = scan_step(av, i0 as int, st);
                assert(st2 == (data_dir@, socket@, explicit_socket, port, verb1@, verb2@, positional@.map_values(|s: String| s@)));
                assert(j == i);
            }
        }
        let ghost fin = (data_dir@, socket@, explicit_socket, port, verb1@, verb2@, positional@.map_values(|s: String| s@));
        proof {
            assert(scan(av, i as int, fin) == fin);
        }
        let v1 = verb1.as_str();
        let v2 = verb2.as_str();
        if str_eq(v1, "init") {
            CliCommand::Init { data_dir }
        } else if str_eq(v1, "daemon") {
            CliCommand::Daemon { data_dir, port }
        } else if str_eq(v1, "ping") {
            CliCommand::Ping { socket }
        } else if str_eq(v1, "status") {
            CliCommand::Status { data_dir, socket: if explicit_socket { Some(socket) } else { None } }
        } else if str_eq(v1, "sync") {
            CliCommand::Sync { socket }
        } else if str_eq(v1, "gc") {
            CliCommand::GcCas { data_dir, socket: if explicit_socket { Some(socket) } else { None } }
        } else if str_eq(v1, "drive") {
            if str_eq(v2, "put") {
                let file_path = if positional.len() > 0 { copy_string(&positional[0]) } else { "data.txt".to_string() };
                let vpath = if positional.len() > 1 {
                    copy_string(&positional[1])
                } else {
                    let mut s = "/".to_string();
                    match file_name_of(file_path.as_str()) {
                        Some(n) => vstd::string::StringExecFns::append(&mut s, n.as_str()),
                        None => {}
                    }
                    proof {
                        assert(s@ =~= "/"@ + match path_file_name(file_path@) { Some(n) => n, None => Seq::<char>::empty() });
                    }
                    s
                };
                CliCommand::DrivePut { socket, file_path, vpath }
            } else if str_eq(v2, "ls") || str_eq(v2, "list") {
                let vpath = if positional.len() > 0 { copy_string(&positional[0]) } else { "/".to_string() };
                CliCommand::DriveList { socket, vpath }
            } else {
                let mut u = "drive ".to_string();
                vstd::string::StringExecFns::append(&mut u, v2);
                CliCommand::Unknown(u)
            }
        } else if str_eq(v1, "chat") {
            if str_eq(v2, "send") {
                let channel_id = channel_from(&positional);
                let message = join_from(&positional, 1);
                CliCommand::ChatSend { socket, channel_id, message }
            } else {
                let mut u = "chat ".to_string();
                vstd::string::StringExecFns::append(&mut u, v2);
                CliCommand::Unknown(u)
            }
        } else if str_eq(v1, "community") {
            if str_eq(v2, "post") {
                let channel_id = channel_from(&positional);
                let title = if positional.len() > 1 { copy_string(&positional[1]) } else { "Untitled Post".to_string() };
                let content = join_from(&positional, 2);
                CliCommand::CommunityPost { socket, channel_id, title, content }
            } else {
                let mut u = "community ".to_string();
                vstd::string::StringExecFns::append(&mut u, v2);
                CliCommand::Unknown(u)
            }
        } else {
            CliCommand::Unknown(copy_string(&verb1))
        }
    }
}

} // verus!
