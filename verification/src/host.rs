//! The standalone sync host: its options, read from the command line, the
//! answer that approves a new device, and the lines of its activity log.
use vstd::prelude::*;

use crate::hex::{trim, trim_chars};
use crate::strutil::{chars_of, concat, decimal, decimal_chars, string_of};
use crate::sync::pairing::{parse_u16, parse_u16_spec};

verus! {

/// What the user gave on the command line, over the defaults.
#[derive(Debug, Clone)]
pub struct Options {
    pub db_path: String,
    pub cache_dir: String,
    pub music: Option<String>,
    pub port: u16,
    pub name: String,
    pub mdns: bool,
    pub gui: bool,
}

pub const USAGE: &'static str = "\
uso: yasmine-sync-host [opções]
  --db <arquivo>     índice SQLite (padrão: pasta de dados do Yasmine)
  --music <pasta>    varre esta pasta antes de servir (primeira vez)
  --port <n>         porta TCP (padrão: 0 = o SO escolhe)
  --name <texto>     nome deste PC no pareamento (padrão: hostname)
  --mdns             anuncia na LAN por mDNS (dispensa digitar IP no celular)
  --gui              abre janela com o QR grande (requer build --features gui)
  -h, --help";

/// The options as plain values: database, cache, music folder, port, name,
/// mDNS, GUI.
pub type OptionsView = (Seq<char>, Seq<char>, Option<Seq<char>>, u16, Seq<char>, bool, bool);

pub open spec fn options_view(o: Options) -> OptionsView {
    (
        o.db_path@,
        o.cache_dir@,
        match o.music {
            Some(m) => Some(m@),
            None => None,
        },
        o.port,
        o.name@,
        o.mdns,
        o.gui,
    )
}

/// Why the command line was refused.
#[derive(Debug, Clone, Copy, PartialEq, Eq, Structural)]
pub enum ArgFail {
    /// The option at this index needs a value and none follows.
    NeedsValue(usize),
    /// `--port` was not followed by a number.
    BadPort,
    /// Help was asked for.
    Help,
    /// The argument at this index is no option.
    Unknown(usize),
}

/// The arguments read from index `i` on.
pub open spec fn parse_spec(o: OptionsView, args: Seq<Seq<char>>, i: int) -> Result<OptionsView, ArgFail>
    decreases args.len() - i,
{
    if i < 0 || i >= args.len() {
        Ok(o)
    } else {
        let a = args[i];
        let has_value = i + 1 < args.len();
        let v = args[i + 1];
        if a == "--db"@ {
            if has_value {
                parse_spec((v, o.1, o.2, o.3, o.4, o.5, o.6), args, i + 2)
            } else {
                Err(ArgFail::NeedsValue(i as usize))
            }
        } else if a == "--music"@ {
            if has_value {
                parse_spec((o.0, o.1, Some(v), o.3, o.4, o.5, o.6), args, i + 2)
            } else {
                Err(ArgFail::NeedsValue(i as usize))
            }
        } else if a == "--port"@ {
            if has_value {
                match parse_u16_spec(v) {
                    Some(p) => parse_spec((o.0, o.1, o.2, p, o.4, o.5, o.6), args, i + 2),
                    None => Err(ArgFail::BadPort),
                }
            } else {
                Err(ArgFail::NeedsValue(i as usize))
            }
        } else if a == "--name"@ {
            if has_value {
                parse_spec((o.0, o.1, o.2, o.3, v, o.5, o.6), args, i + 2)
            } else {
                Err(ArgFail::NeedsValue(i as usize))
            }
        } else if a == "--mdns"@ {
            parse_spec((o.0, o.1, o.2, o.3, o.4, true, o.6), args, i + 1)
        } else if a == "--gui"@ {
            parse_spec((o.0, o.1, o.2, o.3, o.4, o.5, true), args, i + 1)
        } else if a == "-h"@ || a == "--help"@ {
            Err(ArgFail::Help)
        } else {
            Err(ArgFail::Unknown(i as usize))
        }
    }
}

fn is_lit(a: &Vec<char>, lit: &str) -> (r: bool)
    ensures
        r == (a@ == lit@),
{
    let l = chars_of(lit);
    if a.len() != l.len() {
        return false;
    }
    let mut i: usize = 0;
    while i < a.len()
        invariant
            a@.len() == l@.len(),
            l@ == lit@,
            i <= a@.len(),
            forall|j: int| 0 <= j < i ==> a@[j] == l@[j],
        decreases a.len() - i,
    {
        if a[i] != l[i] {
            return false;
        }
        i += 1;
    }
    assert(a@ =~= l@);
    true
}

pub open spec fn args_view(args: Seq<String>) -> Seq<Seq<char>> {
    args.map_values(|s: String| s@)
}

impl Options {
    /// Reads the command line (without the program name) over `defaults`.
    /// Each option may repeat; the last one counts.
    pub fn parse(defaults: Options, args: &Vec<String>) -> (r: Result<Options, ArgFail>)
        ensures
            match parse_spec(options_view(defaults), args_view(args@), 0) {
                Ok(v) => r is Ok && options_view(r->Ok_0) == v,
                Err(e) => r == Err::<Options, ArgFail>(e),
            },
    {
        let ghost av = args_view(args@);
        let mut o = defaults;
        let mut i: usize = 0;
        while i < args.len()
            invariant
                av == args_view(args@),
                i <= args@.len() + 1,
                parse_spec(options_view(o), av, i as int) == parse_spec(options_view(defaults), av, 0),
            decreases args.len() - i,
        {
            let a = chars_of(args[i].as_str());
            assert(a@ == av[i as int]);
            let has_value = i + 1 < args.len();
            if is_lit(&a, "--db") {
                if !has_value {
                    return Err(ArgFail::NeedsValue(i));
                }
                o.db_path = args[i + 1].clone();
                i += 2;
            } else if is_lit(&a, "--music") {
                if !has_value {
                    return Err(ArgFail::NeedsValue(i));
                }
                o.music = Some(args[i + 1].clone());
                i += 2;
            } else if is_lit(&a, "--port") {
                if !has_value {
                    return Err(ArgFail::NeedsValue(i));
                }
                match parse_u16(&chars_of(args[i + 1].as_str())) {
                    Some(p) => o.port = p,
                    None => return Err(ArgFail::BadPort),
                }
                i += 2;
            } else if is_lit(&a, "--name") {
                if !has_value {
                    return Err(ArgFail::NeedsValue(i));
                }
                o.name = args[i + 1].clone();
                i += 2;
            } else if is_lit(&a, "--mdns") {
                o.mdns = true;
                i += 1;
            } else if is_lit(&a, "--gui") {
                o.gui = true;
                i += 1;
            } else if is_lit(&a, "-h") || is_lit(&a, "--help") {
                return Err(ArgFail::Help);
            } else {
                return Err(ArgFail::Unknown(i));
            }
        }
        Ok(o)
    }
}

fn push_all(v: &mut Vec<char>, w: &Vec<char>)
    ensures
        final(v)@ == old(v)@ + w@,
{
    let mut k: usize = 0;
    while k < w.len()
        invariant
            k <= w@.len(),
            v@ == old(v)@ + w@.subrange(0, k as int),
        decreases w.len() - k,
    {
        v.push(w[k]);
        k += 1;
        assert(v@ =~= old(v)@ + w@.subrange(0, k as int));
    }
    assert(w@.subrange(0, w@.len() as int) =~= w@);
}

impl ArgFail {
    /// The text shown for the refusal; `args` is the command line it came
    /// from.
    pub fn message(&self, args: &Vec<String>) -> (m: String)
        ensures
            match *self {
                ArgFail::NeedsValue(i) => i < args@.len() ==> m@ == args@[i as int]@ + " precisa de um valor"@,
                ArgFail::BadPort => m@ == "--port precisa ser um número"@,
                ArgFail::Help => m@ == "ajuda:"@,
                ArgFail::Unknown(i) => i < args@.len() ==> m@ == "opção desconhecida: "@ + args@[i as int]@,
            },
    {
        match self {
            ArgFail::NeedsValue(i) => {
                let mut v = if *i < args.len() {
                    chars_of(args[*i].as_str())
                } else {
                    Vec::new()
                };
                let tail = chars_of(" precisa de um valor");
                push_all(&mut v, &tail);
                string_of(&v)
            },
            ArgFail::BadPort => "--port precisa ser um número".to_owned(),
            ArgFail::Help => "ajuda:".to_owned(),
            ArgFail::Unknown(i) => {
                let mut v = chars_of("opção desconhecida: ");
                if *i < args.len() {
                    let a = chars_of(args[*i].as_str());
                    push_all(&mut v, &a);
                }
                string_of(&v)
            },
        }
    }
}

/// Whether the answer to "pair with …?" is a yes: `s`, `S`, `sim`, `y` or
/// `Y`, White_Space around it ignored.
pub open spec fn is_yes_spec(line: Seq<char>) -> bool {
    let t = trim(line);
    t == seq!['s'] || t == seq!['S'] || t == seq!['s', 'i', 'm'] || t == seq!['y'] || t == seq!['Y']
}

pub fn is_yes(line: &str) -> (r: bool)
    ensures
        r == is_yes_spec(line@),
{
    let t = trim_chars(&chars_of(line));
    let one = t.len() == 1;
    let r = (one && (t[0] == 's' || t[0] == 'S' || t[0] == 'y' || t[0] == 'Y')) || (t.len() == 3 && t[0] == 's' && t[1] == 'i' && t[2] == 'm');
    proof {
        if one {
            assert(t@ =~= seq![t@[0]]);
        }
        if t@.len() == 3 {
            assert(t@ =~= seq![t@[0], t@[1], t@[2]]);
        }
    }
    r
}

/// How much of a file has gone out, in whole percent; 100 for an empty
/// file.
pub open spec fn send_percent_spec(done: u64, total: u64) -> nat {
    if total > 0 {
        ((done as int * 100) / (total as int)) as nat
    } else {
        100
    }
}

pub fn send_percent(done: u64, total: u64) -> (p: u64)
    requires
        done * 100 <= u64::MAX,
    ensures
        p == send_percent_spec(done, total),
{
    if total > 0 {
        done * 100 / total
    } else {
        100
    }
}

/// `enviando pra <peer>: <pct>% (<done>/<total> bytes)`, the log line of a
/// file going out.
pub fn sending_line(peer: &str, done: u64, total: u64) -> (s: String)
    requires
        done * 100 <= u64::MAX,
    ensures
        s@ == "enviando pra "@ + peer@ + ": "@ + decimal(send_percent_spec(done, total)) + "% ("@ + decimal(
            done as nat,
        ) + "/"@ + decimal(total as nat) + " bytes)"@,
{
    let pct = send_percent(done, total);
    let v = concat(&chars_of("enviando pra "), &chars_of(peer));
    let v = concat(&v, &chars_of(": "));
    let v = concat(&v, &decimal_chars(pct));
    let v = concat(&v, &chars_of("% ("));
    let v = concat(&v, &decimal_chars(done));
    let v = concat(&v, &chars_of("/"));
    let v = concat(&v, &decimal_chars(total));
    let v = concat(&v, &chars_of(" bytes)"));
    string_of(&v)
}

/// Lines the host's window keeps: the newest ones.
pub const LOG_LINES: usize = 300;

/// Appends a line to the activity log, dropping the oldest one once the log
/// holds more than [`LOG_LINES`].
pub fn log_line(log: &mut Vec<String>, line: String)
    ensures
        old(log)@.len() + 1 > LOG_LINES ==> final(log)@ == old(log)@.push(line).drop_first(),
        old(log)@.len() + 1 <= LOG_LINES ==> final(log)@ == old(log)@.push(line),
{
    log.push(line);
    if log.len() > LOG_LINES {
        log.remove(0);
        assert(log@ =~= old(log)@.push(line).drop_first());
    }
}

} // verus!
