//! Which buses the gain-register reader visits: the options of the reader,
//! read strictly (every argument must be known) or by flag lookup, and the
//! labelled ports that result.
use vstd::prelude::*;
use crate::cli::{arg_value, arg_value_of, arg_values, arg_values_from, has_flag};
use crate::numeric::{decimal_text, parse_uint, parse_uint_of, usize_decimal};
use crate::text::{chars_concat, chars_of, string_of, text_eq, texts};

verus! {

/// Timeout of one register read when none is given (ms).
pub const DEFAULT_TIMEOUT_MS: u64 = 300;

/// Bus of the left arm when two arms are read.
pub const DEFAULT_LEFT_PORT: &'static str = "/dev/ttyACM0";

/// Bus of the right arm when two arms are read.
pub const DEFAULT_RIGHT_PORT: &'static str = "/dev/ttyACM1";

/// A bus to read, with the label printed above its table.
pub struct PdTarget {
    pub label: String,
    pub port: String,
}

/// A bus to read, as texts.
pub struct PdTargetView {
    pub label: Seq<char>,
    pub port: Seq<char>,
}

impl View for PdTarget {
    type V = PdTargetView;

    open spec fn view(&self) -> PdTargetView {
        PdTargetView { label: self.label@, port: self.port@ }
    }
}

/// The views of targets.
pub open spec fn target_views(v: Seq<PdTarget>) -> Seq<PdTargetView> {
    v.map_values(|t: PdTarget| t@)
}

/// What the reader is asked to do.
pub struct PdArgs {
    pub targets: Vec<PdTarget>,
    pub timeout_ms: u64,
}

/// An option that takes a value.
#[derive(Debug, Clone, Copy, PartialEq, Eq, Structural)]
pub enum PdOption {
    TimeoutMs,
    LeftPort,
    RightPort,
    Port,
}

/// Why the reader does not run.
#[derive(Debug, Clone, Copy, PartialEq, Eq, Structural)]
pub enum PdArgsError {
    /// Help was asked for.
    Help,
    /// An option that takes a value is the last argument.
    MissingValue(PdOption),
    /// The timeout is not a number of milliseconds.
    BadTimeout,
    /// The argument at this position is not an option of the reader.
    UnknownArgument(usize),
    /// Neither both arms nor any port was asked for.
    NoTarget,
}

// ------------------------------------------------------------------
// Models
// ------------------------------------------------------------------

/// The options read so far.
pub struct PdScan {
    pub timeout: u64,
    pub default_bi: bool,
    pub left: Seq<char>,
    pub right: Seq<char>,
    pub ports: Seq<Seq<char>>,
}

/// Before any argument.
pub open spec fn pd_scan_start() -> PdScan {
    PdScan {
        timeout: DEFAULT_TIMEOUT_MS,
        default_bi: false,
        left: DEFAULT_LEFT_PORT@,
        right: DEFAULT_RIGHT_PORT@,
        ports: Seq::empty(),
    }
}

/// Reading the arguments from `i` on, one by one: help stops at once,
/// `--timeout-ms`, `--left-port`, `--right-port` and `--port` take the next
/// argument, `--default-bi` asks for both arms, anything else is refused.
pub open spec fn pd_scan_from(args: Seq<Seq<char>>, i: int, st: PdScan) -> Result<PdScan, PdArgsError>
    decreases args.len() - i,
{
    if i < 0 || i >= args.len() {
        Ok(st)
    } else {
        let a = args[i];
        let has_value = i + 1 < args.len();
        if a == "-h"@ || a == "--help"@ {
            Err(PdArgsError::Help)
        } else if a == "--timeout-ms"@ {
            if !has_value {
                Err(PdArgsError::MissingValue(PdOption::TimeoutMs))
            } else {
                match parse_uint_of(args[i + 1], 10, u64::MAX as nat) {
                    None => Err(PdArgsError::BadTimeout),
                    Some(t) => pd_scan_from(args, i + 2, PdScan { timeout: t as u64, ..st }),
                }
            }
        } else if a == "--default-bi"@ {
            pd_scan_from(args, i + 1, PdScan { default_bi: true, ..st })
        } else if a == "--left-port"@ {
            if !has_value {
                Err(PdArgsError::MissingValue(PdOption::LeftPort))
            } else {
                pd_scan_from(args, i + 2, PdScan { left: args[i + 1], ..st })
            }
        } else if a == "--right-port"@ {
            if !has_value {
                Err(PdArgsError::MissingValue(PdOption::RightPort))
            } else {
                pd_scan_from(args, i + 2, PdScan { right: args[i + 1], ..st })
            }
        } else if a == "--port"@ {
            if !has_value {
                Err(PdArgsError::MissingValue(PdOption::Port))
            } else {
                pd_scan_from(args, i + 2, PdScan { ports: st.ports.push(args[i + 1]), ..st })
            }
        } else {
            Err(PdArgsError::UnknownArgument(i as usize))
        }
    }
}

/// The label of the `k`-th (0-based) explicit port: `port1`, `port2`, ….
pub open spec fn port_label(k: nat) -> Seq<char> {
    "port"@ + decimal_text(k + 1)
}

/// The buses to read: both arms first when asked for, then each explicit
/// port in order.
pub open spec fn pd_targets_of(
    default_bi: bool,
    left: Seq<char>,
    right: Seq<char>,
    ports: Seq<Seq<char>>,
) -> Seq<PdTargetView> {
    let arms = if default_bi {
        seq![
            PdTargetView { label: "left"@, port: left },
            PdTargetView { label: "right"@, port: right },
        ]
    } else {
        Seq::empty()
    };
    arms + Seq::new(
        ports.len(),
        |k: int| PdTargetView { label: port_label(k as nat), port: ports[k] },
    )
}

/// The request of a completed scan: refused when it names no bus.
pub open spec fn pd_request_of(st: PdScan) -> Result<(Seq<PdTargetView>, u64), PdArgsError> {
    let ts = pd_targets_of(st.default_bi, st.left, st.right, st.ports);
    if ts.len() == 0 {
        Err(PdArgsError::NoTarget)
    } else {
        Ok((ts, st.timeout))
    }
}

/// The strict reading of the reader's arguments.
pub open spec fn pd_args_of(args: Seq<Seq<char>>) -> Result<(Seq<PdTargetView>, u64), PdArgsError> {
    match pd_scan_from(args, 0, pd_scan_start()) {
        Err(e) => Err(e),
        Ok(st) => pd_request_of(st),
    }
}

/// The reading by flag lookup: help if `--help` or `-h` is anywhere; the
/// timeout from `--timeout-ms` when it is a number, else the default; both
/// arms if `--default-bi` is anywhere, on `--left-port` / `--right-port` or
/// their defaults; and every `--port`.
pub open spec fn pd_flags_of(args: Seq<Seq<char>>) -> Result<(Seq<PdTargetView>, u64), PdArgsError> {
    if args.contains("--help"@) || args.contains("-h"@) {
        Err(PdArgsError::Help)
    } else {
        let timeout = match arg_value_of(args, "--timeout-ms"@) {
            Some(v) => match parse_uint_of(v, 10, u64::MAX as nat) {
                Some(t) => t as u64,
                None => DEFAULT_TIMEOUT_MS,
            },
            None => DEFAULT_TIMEOUT_MS,
        };
        let left = match arg_value_of(args, "--left-port"@) {
            Some(v) => v,
            None => DEFAULT_LEFT_PORT@,
        };
        let right = match arg_value_of(args, "--right-port"@) {
            Some(v) => v,
            None => DEFAULT_RIGHT_PORT@,
        };
        pd_request_of(
            PdScan {
                timeout,
                default_bi: args.contains("--default-bi"@),
                left,
                right,
                ports: arg_values_from(args, "--port"@, 0),
            },
        )
    }
}

// ------------------------------------------------------------------
// Executable functions
// ------------------------------------------------------------------

/// The buses to read (see [`pd_targets_of`]).
fn build_targets(default_bi: bool, left: String, right: String, ports: &Vec<String>) -> (r: Vec<
    PdTarget,
>)
    ensures
        target_views(r@) == pd_targets_of(default_bi, left@, right@, texts(ports@)),
{
    let ghost ps = texts(ports@);
    let mut out: Vec<PdTarget> = Vec::new();
    if default_bi {
        out.push(PdTarget { label: "left".to_owned(), port: left });
        out.push(PdTarget { label: "right".to_owned(), port: right });
    }
    let ghost arms = target_views(out@);
    proof {
        if default_bi {
            assert(arms =~= seq![
                PdTargetView { label: "left"@, port: left@ },
                PdTargetView { label: "right"@, port: right@ },
            ]);
        } else {
            assert(arms =~= Seq::<PdTargetView>::empty());
        }
    }
    let word = chars_of("port");
    let mut k: usize = 0;
    while k < ports.len()
        invariant
            k <= ports@.len(),
            ps == texts(ports@),
            word@ == "port"@,
            target_views(out@) == arms + Seq::new(
                k as nat,
                |j: int| PdTargetView { label: port_label(j as nat), port: ps[j] },
            ),
        decreases ports@.len() - k,
    {
        let label = string_of(&chars_concat(&word, &usize_decimal(k + 1)));
        let port = ports[k].as_str().to_owned();
        let ghost before = target_views(out@);
        out.push(PdTarget { label, port });
        assert(ps[k as int] == ports@[k as int]@);
        assert(target_views(out@) =~= arms + Seq::new(
            (k + 1) as nat,
            |j: int| PdTargetView { label: port_label(j as nat), port: ps[j] },
        )) by {
            assert(target_views(out@) =~= before.push(
                PdTargetView { label: port_label(k as nat), port: ps[k as int] },
            ));
        }
        k = k + 1;
    }
    out
}

/// The request for the buses found: refused when there is none.
fn request(timeout: u64, default_bi: bool, left: String, right: String, ports: &Vec<String>) -> (r:
    Result<PdArgs, PdArgsError>)
    ensures
        match r {
            Ok(p) => pd_request_of(
                PdScan { timeout, default_bi, left: left@, right: right@, ports: texts(ports@) },
            ) == Ok::<(Seq<PdTargetView>, u64), PdArgsError>(
                (target_views(p.targets@), p.timeout_ms),
            ),
            Err(e) => pd_request_of(
                PdScan { timeout, default_bi, left: left@, right: right@, ports: texts(ports@) },
            ) == Err::<(Seq<PdTargetView>, u64), PdArgsError>(e),
        },
{
    let targets = build_targets(default_bi, left, right, ports);
    if targets.len() == 0 {
        Err(PdArgsError::NoTarget)
    } else {
        Ok(PdArgs { targets, timeout_ms: timeout })
    }
}

/// Reads the reader's arguments strictly, one by one (see [`pd_scan_from`]).
pub fn parse_args(args: &[String]) -> (r: Result<PdArgs, PdArgsError>)
    ensures
        match r {
            Ok(p) => pd_args_of(texts(args@)) == Ok::<(Seq<PdTargetView>, u64), PdArgsError>(
                (target_views(p.targets@), p.timeout_ms),
            ),
            Err(e) => pd_args_of(texts(args@)) == Err::<(Seq<PdTargetView>, u64), PdArgsError>(e),
        },
{
    let ghost a = texts(args@);
    let mut timeout: u64 = DEFAULT_TIMEOUT_MS;
    let mut default_bi = false;
    let mut left = DEFAULT_LEFT_PORT.to_owned();
    let mut right = DEFAULT_RIGHT_PORT.to_owned();
    let mut ports: Vec<String> = Vec::new();
    let mut i: usize = 0;
    assert(texts(ports@) =~= Seq::<Seq<char>>::empty());
    while i < args.len()
        invariant
            i <= args@.len(),
            a == texts(args@),
            pd_scan_from(a, 0, pd_scan_start()) == pd_scan_from(
                a,
                i as int,
                (PdScan { timeout, default_bi, left: left@, right: right@, ports: texts(ports@) }),
            ),
        decreases args@.len() - i,
    {
        assert(a[i as int] == args@[i as int]@);
        let arg = args[i].as_str();
        let has_value = i + 1 < args.len();
        if has_value {
            assert(a[i + 1] == args@[i + 1]@);
        }
        if text_eq(arg, "-h") || text_eq(arg, "--help") {
            return Err(PdArgsError::Help);
        } else if text_eq(arg, "--timeout-ms") {
            if !has_value {
                return Err(PdArgsError::MissingValue(PdOption::TimeoutMs));
            }
            match parse_uint(&chars_of(args[i + 1].as_str()), 10, u64::MAX) {
                None => {
                    return Err(PdArgsError::BadTimeout);
                },
                Some(t) => {
                    timeout = t;
                },
            }
            i = i + 2;
        } else if text_eq(arg, "--default-bi") {
            default_bi = true;
            i = i + 1;
        } else if text_eq(arg, "--left-port") {
            if !has_value {
                return Err(PdArgsError::MissingValue(PdOption::LeftPort));
            }
            left = args[i + 1].as_str().to_owned();
            i = i + 2;
        } else if text_eq(arg, "--right-port") {
            if !has_value {
                return Err(PdArgsError::MissingValue(PdOption::RightPort));
            }
            right = args[i + 1].as_str().to_owned();
            i = i + 2;
        } else if text_eq(arg, "--port") {
            if !has_value {
                return Err(PdArgsError::MissingValue(PdOption::Port));
            }
            let ghost before = texts(ports@);
            ports.push(args[i + 1].as_str().to_owned());
            assert(texts(ports@) =~= before.push(a[i + 1]));
            i = i + 2;
        } else {
            return Err(PdArgsError::UnknownArgument(i));
        }
    }
    request(timeout, default_bi, left, right, &ports)
}

/// Reads the reader's arguments by flag lookup (see [`pd_flags_of`]).
pub fn targets_from_flags(args: &[String]) -> (r: Result<PdArgs, PdArgsError>)
    ensures
        match r {
            Ok(p) => pd_flags_of(texts(args@)) == Ok::<(Seq<PdTargetView>, u64), PdArgsError>(
                (target_views(p.targets@), p.timeout_ms),
            ),
            Err(e) => pd_flags_of(texts(args@)) == Err::<(Seq<PdTargetView>, u64), PdArgsError>(e),
        },
{
    if has_flag(args, "--help") || has_flag(args, "-h") {
        return Err(PdArgsError::Help);
    }
    let timeout = match arg_value(args, "--timeout-ms") {
        Some(v) => match parse_uint(&chars_of(v.as_str()), 10, u64::MAX) {
            Some(t) => t,
            None => DEFAULT_TIMEOUT_MS,
        },
        None => DEFAULT_TIMEOUT_MS,
    };
    let left = match arg_value(args, "--left-port") {
        Some(v) => v,
        None => DEFAULT_LEFT_PORT.to_owned(),
    };
    let right = match arg_value(args, "--right-port") {
        Some(v) => v,
        None => DEFAULT_RIGHT_PORT.to_owned(),
    };
    let default_bi = has_flag(args, "--default-bi");
    let ports = arg_values(args, "--port");
    request(timeout, default_bi, left, right, &ports)
}

} // verus!
