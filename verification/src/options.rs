//! Reading the command line into filters.

use vstd::prelude::*;
use vstd::string::StrSliceExecFns;
use crate::addr::IpAddr;
use crate::filters::{Filters, PortRange};
use crate::route::Prefix;
use crate::sock::Protocol;
use crate::route::{Route, Rtbl};
use crate::sock::protocol_named;
use crate::text::{
    texts, find, first_index_of, head, join, parse_i32, parse_unsigned, same, signed32, strip_prefix,
    tail, unsigned, views,
};

verus! {

/// One kind of filter and the ways to write it on the command line.
pub struct ArgRule {
    /// The mark that, put before a value, stands for the filter.
    pub abbrev: Option<&'static str>,
    /// The letter by which the filter is known.
    pub kind: char,
    /// The flags of the filter, the short one first.
    pub flags: Vec<&'static str>,
}

/// One kind of filter and the ways to write it, as plain values.
pub struct Rule {
    pub abbrev: Option<Seq<char>>,
    pub kind: char,
    pub flags: Seq<Seq<char>>,
}

impl View for ArgRule {
    type V = Rule;

    open spec fn view(&self) -> Rule {
        Rule {
            abbrev: match self.abbrev {
                Some(a) => Some(a@),
                None => None,
            },
            kind: self.kind,
            flags: views(self.flags@),
        }
    }
}

/// The filters that take a value, in the order in which they are tried:
/// address, port, process number, command, user, interface.
pub open spec fn rules() -> Seq<Rule> {
    seq![
        Rule { abbrev: None, kind: 'a', flags: seq!["-a"@, "--addr"@, "--address"@, "--prefix"@] },
        Rule { abbrev: Some(":"@), kind: 'p', flags: seq!["-p"@, "--port"@] },
        Rule { abbrev: Some("%"@), kind: 'P', flags: seq!["-P"@, "--pid"@, "--process-id"@] },
        Rule { abbrev: Some("/"@), kind: 'c', flags: seq!["-c"@, "--cmd"@, "--command"@] },
        Rule { abbrev: None, kind: 'u', flags: seq!["-u"@, "--user"@] },
        Rule { abbrev: None, kind: 'i', flags: seq!["-i"@, "--iface"@, "--interface"@] },
    ]
}

/// What an argument gives for a filter.
pub enum Found {
    /// The value, and whether it was taken from the next argument.
    Value(Seq<char>, bool),
    /// The flag stands alone and is the last argument: its value is missing.
    Missing(Seq<char>),
}

/// What `arg` gives by one flag: the next argument if it is the flag
/// itself; what follows the flag and an equals sign; or what follows the
/// flag directly.
pub open spec fn by_flag(arg: Seq<char>, flag: Seq<char>, next: Option<Seq<char>>) -> Option<
    Found,
> {
    if arg == flag {
        Some(
            match next {
                Some(value) => Found::Value(value, true),
                None => Found::Missing(flag),
            },
        )
    } else if (flag + "="@).is_prefix_of(arg) {
        Some(Found::Value(arg.skip((flag.len() + 1) as int), false))
    } else if flag.is_prefix_of(arg) {
        Some(Found::Value(arg.skip(flag.len() as int), false))
    } else {
        None
    }
}

/// What `arg` gives by the first of the flags from place `i` on that
/// applies.
pub open spec fn by_flags(arg: Seq<char>, flags: Seq<Seq<char>>, i: int, next: Option<Seq<char>>)
    -> Option<Found>
    decreases flags.len() - i,
{
    if i < 0 || i >= flags.len() {
        None
    } else {
        match by_flag(arg, flags[i], next) {
            Some(found) => Some(found),
            None => by_flags(arg, flags, i + 1, next),
        }
    }
}

/// What `arg` gives for one filter: what follows its mark, if `arg` begins
/// with the mark and goes on; else what its flags give.
pub open spec fn by_rule(arg: Seq<char>, rule: Rule, next: Option<Seq<char>>) -> Option<Found> {
    if rule.abbrev is Some && rule.abbrev->0.is_prefix_of(arg) && arg.len() > rule.abbrev->0.len() {
        Some(Found::Value(arg.skip(rule.abbrev->0.len() as int), false))
    } else {
        by_flags(arg, rule.flags, 0, next)
    }
}

/// The first filter from place `i` on for which `arg` gives something,
/// and what it gives.
pub open spec fn by_rules(arg: Seq<char>, all: Seq<Rule>, i: int, next: Option<Seq<char>>)
    -> Option<(char, Found)>
    decreases all.len() - i,
{
    if i < 0 || i >= all.len() {
        None
    } else {
        match by_rule(arg, all[i], next) {
            Some(found) => Some((all[i].kind, found)),
            None => by_rules(arg, all, i + 1, next),
        }
    }
}

/// The filters that take a value, in the order in which they are tried.
pub fn table() -> (r: Vec<ArgRule>)
    ensures
        r@.map_values(|rule: ArgRule| rule@) == rules(),
{
    let a = vec!["-a", "--addr", "--address", "--prefix"];
    let p = vec!["-p", "--port"];
    let pid = vec!["-P", "--pid", "--process-id"];
    let c = vec!["-c", "--cmd", "--command"];
    let u = vec!["-u", "--user"];
    let i = vec!["-i", "--iface", "--interface"];
    assert(views(a@) =~= seq!["-a"@, "--addr"@, "--address"@, "--prefix"@]);
    assert(views(p@) =~= seq!["-p"@, "--port"@]);
    assert(views(pid@) =~= seq!["-P"@, "--pid"@, "--process-id"@]);
    assert(views(c@) =~= seq!["-c"@, "--cmd"@, "--command"@]);
    assert(views(u@) =~= seq!["-u"@, "--user"@]);
    assert(views(i@) =~= seq!["-i"@, "--iface"@, "--interface"@]);
    let r = vec![
        ArgRule { abbrev: None, kind: 'a', flags: a },
        ArgRule { abbrev: Some(":"), kind: 'p', flags: p },
        ArgRule { abbrev: Some("%"), kind: 'P', flags: pid },
        ArgRule { abbrev: Some("/"), kind: 'c', flags: c },
        ArgRule { abbrev: None, kind: 'u', flags: u },
        ArgRule { abbrev: None, kind: 'i', flags: i },
    ];
    assert(r@.map_values(|rule: ArgRule| rule@) =~= rules());
    r
}

/// An argument that stands for a filter.
#[derive(Debug, Clone, PartialEq, Eq)]
pub struct Matched {
    /// The letter of the filter.
    pub kind: char,
    /// The value for the filter.
    pub value: String,
    /// Whether the value is the next argument, which is thereby used up.
    pub took_next: bool,
}

/// Why the command line could not be read.
#[derive(Debug, Clone, PartialEq, Eq)]
pub enum ArgError {
    /// This flag is the last argument and has no value.
    MissingValue(String),
    /// This is no process number.
    BadPid(String),
    /// This is no port where a range starts.
    BadPortStart(String),
    /// This is no port where a range ends.
    BadPortEnd(String),
    /// This is no single port.
    BadPort(String),
    /// No user has this name or number.
    UnknownUser(String),
    /// No interface has this name.
    UnknownInterface(String),
    /// This is no address prefix.
    BadPrefix(String),
    /// Nothing can be made of this argument.
    UnknownArgument(String),
}

/// What `arg` gives by one flag.
fn match_flag(arg: &str, flag: &str, next: Option<&String>) -> (r: Option<
    Result<(String, bool), String>,
>)
    ensures
        match r {
            Some(Ok((value, took))) => by_flag(arg@, flag@, crate::procs::borrowed_text(next))
                matches Some(Found::Value(v, t)) && v == value@ && t == took,
            Some(Err(missing)) => by_flag(arg@, flag@, crate::procs::borrowed_text(next))
                matches Some(Found::Missing(f)) && f == missing@,
            None => by_flag(arg@, flag@, crate::procs::borrowed_text(next)) is None,
        },
{
    if same(arg, flag) {
        return Some(
            match next {
                Some(value) => Ok((value.clone(), true)),
                None => Err(flag.to_owned()),
            },
        );
    }
    let with_equals = join(flag, "=");
    proof {
        reveal_strlit("=");
    }
    if let Some(rest) = strip_prefix(arg, with_equals.as_str()) {
        assert(with_equals@.len() == flag@.len() + 1);
        return Some(Ok((rest.to_owned(), false)));
    }
    if let Some(rest) = strip_prefix(arg, flag) {
        return Some(Ok((rest.to_owned(), false)));
    }
    None
}

/// The filter that `arg` stands for, if it stands for one, with its value.
/// `next` is the argument that follows, if one does.
pub fn match_arg(arg: &str, next: Option<&String>) -> (r: Result<Option<Matched>, ArgError>)
    ensures
        match r {
            Ok(Some(m)) => by_rules(arg@, rules(), 0, crate::procs::borrowed_text(next))
                == Some((m.kind, Found::Value(m.value@, m.took_next))),
            Ok(None) => by_rules(arg@, rules(), 0, crate::procs::borrowed_text(next)) is None,
            Err(e) => e matches ArgError::MissingValue(flag) && by_rules(
                arg@,
                rules(),
                0,
                crate::procs::borrowed_text(next),
            ) matches Some((_, Found::Missing(f))) && f == flag@,
        },
{
    let all = table();
    let ghost nx = crate::procs::borrowed_text(next);
    let mut i: usize = 0;
    while i < all.len()
        invariant
            i <= all.len(),
            nx == crate::procs::borrowed_text(next),
            all@.map_values(|rule: ArgRule| rule@) == rules(),
            by_rules(arg@, rules(), 0, nx) == by_rules(arg@, rules(), i as int, nx),
        decreases all.len() - i,
    {
        let rule = &all[i];
        assert(rules()[i as int] == rule@);
        match rule.abbrev {
            Some(mark) => {
                if let Some(rest) = strip_prefix(arg, mark) {
                    if rest.unicode_len() > 0 {
                        return Ok(
                            Some(Matched { kind: rule.kind, value: rest.to_owned(), took_next: false }),
                        );
                    }
                }
            },
            None => {},
        }
        let mut f: usize = 0;
        while f < rule.flags.len()
            invariant
                f <= rule.flags.len(),
                i < all.len(),
                nx == crate::procs::borrowed_text(next),
                rules().len() == all.len(),
                rules()[i as int] == rule@,
                by_rules(arg@, rules(), 0, nx) == by_rules(arg@, rules(), i as int, nx),
                by_rule(arg@, rule@, nx) == by_flags(arg@, rule@.flags, f as int, nx),
            decreases rule.flags.len() - f,
        {
            assert(rule@.flags[f as int] == rule.flags@[f as int]@);
            match match_flag(arg, rule.flags[f], next) {
                Some(Ok((value, took_next))) => {
                    return Ok(Some(Matched { kind: rule.kind, value, took_next }));
                },
                Some(Err(flag)) => {
                    return Err(ArgError::MissingValue(flag));
                },
                None => {},
            }
            f = f + 1;
        }
        i = i + 1;
    }
    Ok(None)
}

/// What is wrong with the text of a port range.
#[derive(Debug, Clone, Copy, PartialEq, Eq, Structural)]
pub enum PortFault {
    /// What stands before the dash is no port.
    Start,
    /// What stands behind the dash is no port.
    End,
    /// The text has no dash and is no port.
    Single,
}

/// The range of ports that a text denotes: one port, or two ports with a
/// dash between them, in either order.
pub open spec fn port_range(s: Seq<char>) -> Result<PortRange, PortFault> {
    match first_index_of(s, '-') {
        None => match unsigned(s, 0xffff) {
            Some(p) => Ok(PortRange { start: p as u16, end: p as u16 }),
            None => Err(PortFault::Single),
        },
        Some(i) => match unsigned(s.take(i), 0xffff) {
            None => Err(PortFault::Start),
            Some(a) => match unsigned(s.skip(i + 1), 0xffff) {
                None => Err(PortFault::End),
                Some(b) => Ok(
                    if a <= b {
                        PortRange { start: a as u16, end: b as u16 }
                    } else {
                        PortRange { start: b as u16, end: a as u16 }
                    },
                ),
            },
        },
    }
}

/// The range of ports that a text denotes.
pub fn parse_port_range(s: &str) -> (r: Result<PortRange, PortFault>)
    ensures
        r == port_range(s@),
{
    let len = s.unicode_len();
    match find(s, '-') {
        None => match parse_unsigned(s, 0xffff) {
            Some(p) => Ok(PortRange { start: p as u16, end: p as u16 }),
            None => Err(PortFault::Single),
        },
        Some(i) => match parse_unsigned(head(s, i), 0xffff) {
            None => Err(PortFault::Start),
            Some(a) => match parse_unsigned(tail(s, i + 1), 0xffff) {
                None => Err(PortFault::End),
                Some(b) => Ok(
                    if a <= b {
                        PortRange { start: a as u16, end: b as u16 }
                    } else {
                        PortRange { start: b as u16, end: a as u16 }
                    },
                ),
            },
        },
    }
}

/// The part of the text of a prefix that names the address: what stands
/// before the first slash, or all of it.
pub open spec fn address_part(s: Seq<char>) -> Seq<char> {
    match first_index_of(s, '/') {
        Some(i) => s.take(i),
        None => s,
    }
}

/// The part of the text of a prefix that names the address.
pub fn prefix_address_text(s: &str) -> (r: &str)
    ensures
        r@ == address_part(s@),
{
    let len = s.unicode_len();
    match find(s, '/') {
        Some(i) => head(s, i),
        None => s,
    }
}

/// The prefix that a text denotes, given the address that its address part
/// denotes, if it denotes one: the address with the length that stands
/// behind the slash, or with all its bits if there is no slash.
pub open spec fn prefix_of(s: Seq<char>, address: Option<IpAddr>) -> Option<Prefix> {
    match address {
        None => None,
        Some(dst) => match first_index_of(s, '/') {
            None => Some(Prefix { dst, bits: dst.spec_width() }),
            Some(i) => match unsigned(s.skip(i + 1), 0xff) {
                Some(bits) => Some(Prefix { dst, bits: bits as u8 }),
                None => None,
            },
        },
    }
}

/// The prefix that a text denotes, given the address that its address part
/// denotes.
pub fn parse_prefix(s: &str, address: Option<IpAddr>) -> (r: Option<Prefix>)
    ensures
        r == prefix_of(s@, address),
{
    let len = s.unicode_len();
    match address {
        None => None,
        Some(dst) => match find(s, '/') {
            None => Some(Prefix::new(dst, None)),
            Some(i) => match parse_unsigned(tail(s, i + 1), 0xff) {
                Some(bits) => Some(Prefix::new(dst, Some(bits as u8))),
                None => None,
            },
        },
    }
}

/// The number of a user that a text denotes.
pub fn parse_uid(s: &str) -> (r: Option<u32>)
    ensures
        match r {
            Some(uid) => unsigned(s@, 0xffff_ffff) == Some(uid as nat),
            None => unsigned(s@, 0xffff_ffff) is None,
        },
{
    match parse_unsigned(s, 0xffff_ffff) {
        Some(v) => Some(v as u32),
        None => None,
    }
}

/// What the host knows of the value of an argument.
#[derive(Debug, Clone, Copy, PartialEq, Eq, Structural)]
pub struct Lookups {
    /// The number of the user whose name the value is.
    pub user_by_name: Option<u32>,
    /// Whether the value is the number of a user that the host knows.
    pub uid_known: bool,
    /// The address that the address part of the value denotes.
    pub address: Option<IpAddr>,
    /// The number of the interface whose name the value is.
    pub interface: Option<u32>,
    /// The user who runs the program.
    pub current_uid: u32,
    /// The user whose rights the program has.
    pub effective_uid: u32,
}

/// What an argument adds to the filters.
#[derive(Debug, Clone, PartialEq, Eq)]
pub enum Action {
    /// A word for the command filter.
    Cmd(String),
    /// A process number.
    Pid(i32),
    /// Users.
    Users(Vec<u32>),
    /// A range of ports.
    Port(PortRange),
    /// Address prefixes.
    Prefixes(Vec<Prefix>),
    /// A protocol.
    Proto(Protocol),
}

/// What an argument adds to the filters, as plain values.
pub enum Plan {
    Cmd(Seq<char>),
    Pid(i32),
    Users(Seq<u32>),
    Port(PortRange),
    Prefixes(Seq<Prefix>),
    Proto(Protocol),
}

impl View for Action {
    type V = Plan;

    open spec fn view(&self) -> Plan {
        match self {
            Action::Cmd(word) => Plan::Cmd(word@),
            Action::Pid(pid) => Plan::Pid(*pid),
            Action::Users(users) => Plan::Users(users@),
            Action::Port(range) => Plan::Port(*range),
            Action::Prefixes(pfxs) => Plan::Prefixes(pfxs@),
            Action::Proto(proto) => Plan::Proto(*proto),
        }
    }
}

/// What is wrong with an argument.
#[derive(Debug, Clone, Copy, PartialEq, Eq, Structural)]
pub enum Fault {
    Pid,
    Port(PortFault),
    User,
    Interface,
    PrefixText,
    Argument,
}

/// The prefixes that an interface owns, in table order.
pub open spec fn prefixes_of(routes: Seq<Route>, iface: u32) -> Seq<Prefix> {
    routes.filter(|x: Route| x.iface == iface).map_values(|x: Route| x.pfx)
}

/// What the value of a filter of kind `kind` adds.
///
/// A command word is taken as it is. A process number and a range of ports
/// must be numbers. A user is given by name or, failing that, by number.
/// An interface stands for the prefixes that it owns. An address stands
/// for itself or, with a length, for a prefix.
pub open spec fn valued(kind: char, value: Seq<char>, look: Lookups, routes: Seq<Route>) -> Result<
    Plan,
    Fault,
> {
    if kind == 'c' {
        Ok(Plan::Cmd(value))
    } else if kind == 'P' {
        match signed32(value) {
            Some(pid) => Ok(Plan::Pid(pid as i32)),
            None => Err(Fault::Pid),
        }
    } else if kind == 'u' {
        match look.user_by_name {
            Some(uid) => Ok(Plan::Users(seq![uid])),
            None => match unsigned(value, 0xffff_ffff) {
                Some(uid) => Ok(Plan::Users(seq![uid as u32])),
                None => Err(Fault::User),
            },
        }
    } else if kind == 'p' {
        match port_range(value) {
            Ok(range) => Ok(Plan::Port(range)),
            Err(fault) => Err(Fault::Port(fault)),
        }
    } else if kind == 'i' {
        match look.interface {
            Some(id) => Ok(Plan::Prefixes(prefixes_of(routes, id))),
            None => Err(Fault::Interface),
        }
    } else if kind == 'a' {
        match prefix_of(value, look.address) {
            Some(pfx) => Ok(Plan::Prefixes(seq![pfx])),
            None => Err(Fault::PrefixText),
        }
    } else {
        Err(Fault::Argument)
    }
}

/// What stands behind two leading dashes of a text, if it has them.
pub open spec fn undashed(s: Seq<char>) -> Option<Seq<char>> {
    if "--"@.is_prefix_of(s) {
        Some(s.skip(2))
    } else {
        None
    }
}

/// What an argument that names no filter adds. It is tried, in this order,
/// as the flag for the users of the program itself, as a protocol with two
/// dashes before it, as a protocol, as an address or prefix, as the name of
/// an interface and as the name of a user.
pub open spec fn bare(arg: Seq<char>, look: Lookups, routes: Seq<Route>) -> Result<Plan, Fault> {
    if arg == "-s"@ || arg == "--self"@ {
        Ok(Plan::Users(seq![look.current_uid, look.effective_uid]))
    } else if undashed(arg) is Some && protocol_named(undashed(arg)->0, 0) is Some {
        Ok(Plan::Proto(protocol_named(undashed(arg)->0, 0)->0))
    } else if protocol_named(arg, 0) is Some {
        Ok(Plan::Proto(protocol_named(arg, 0)->0))
    } else if prefix_of(arg, look.address) is Some {
        Ok(Plan::Prefixes(seq![prefix_of(arg, look.address)->0]))
    } else if look.interface is Some {
        Ok(Plan::Prefixes(prefixes_of(routes, look.interface->0)))
    } else if look.user_by_name is Some {
        Ok(Plan::Users(seq![look.user_by_name->0]))
    } else {
        Err(Fault::Argument)
    }
}

/// What an argument adds: by its filter, if it names one, else by what it
/// is taken for.
pub open spec fn decided(kind: Option<char>, value: Seq<char>, look: Lookups, routes: Seq<Route>)
    -> Result<Plan, Fault> {
    match kind {
        Some(k) => valued(k, value, look, routes),
        None => bare(value, look, routes),
    }
}

/// What is wrong with an argument, as the kind of fault that the error says.
pub open spec fn fault_of(e: ArgError) -> Fault {
    match e {
        ArgError::MissingValue(_) => Fault::Argument,
        ArgError::BadPid(_) => Fault::Pid,
        ArgError::BadPortStart(_) => Fault::Port(PortFault::Start),
        ArgError::BadPortEnd(_) => Fault::Port(PortFault::End),
        ArgError::BadPort(_) => Fault::Port(PortFault::Single),
        ArgError::UnknownUser(_) => Fault::User,
        ArgError::UnknownInterface(_) => Fault::Interface,
        ArgError::BadPrefix(_) => Fault::PrefixText,
        ArgError::UnknownArgument(_) => Fault::Argument,
    }
}

/// The text that an error is about.
pub open spec fn subject(e: ArgError) -> Seq<char> {
    match e {
        ArgError::MissingValue(s) => s@,
        ArgError::BadPid(s) => s@,
        ArgError::BadPortStart(s) => s@,
        ArgError::BadPortEnd(s) => s@,
        ArgError::BadPort(s) => s@,
        ArgError::UnknownUser(s) => s@,
        ArgError::UnknownInterface(s) => s@,
        ArgError::BadPrefix(s) => s@,
        ArgError::UnknownArgument(s) => s@,
    }
}

/// What an argument adds to the filters. `kind` is the letter of the filter
/// that it names, if it names one, `value` its value or, for an argument
/// that names no filter, the argument itself, and `look` what the host
/// knows of the value.
pub fn decide(kind: Option<char>, value: &str, look: &Lookups, local_routes: &Rtbl) -> (r: Result<
    Action,
    ArgError,
>)
    ensures
        match r {
            Ok(action) => decided(kind, value@, *look, local_routes@) matches Ok(plan) && plan
                == action@,
            Err(e) => decided(kind, value@, *look, local_routes@) == Err::<Plan, Fault>(
                fault_of(e),
            ) && subject(e) == value@ && !(e is MissingValue),
        },
{
    match kind {
        Some(k) => {
            if k == 'c' {
                Ok(Action::Cmd(value.to_owned()))
            } else if k == 'P' {
                match parse_i32(value) {
                    Some(pid) => Ok(Action::Pid(pid)),
                    None => Err(ArgError::BadPid(value.to_owned())),
                }
            } else if k == 'u' {
                match look.user_by_name {
                    Some(uid) => {
                        let users = vec![uid];
                        assert(users@ =~= seq![uid]);
                        Ok(Action::Users(users))
                    },
                    None => match parse_uid(value) {
                        Some(uid) => {
                            let users = vec![uid];
                            assert(users@ =~= seq![uid]);
                            Ok(Action::Users(users))
                        },
                        None => Err(ArgError::UnknownUser(value.to_owned())),
                    },
                }
            } else if k == 'p' {
                match parse_port_range(value) {
                    Ok(range) => Ok(Action::Port(range)),
                    Err(PortFault::Start) => Err(ArgError::BadPortStart(value.to_owned())),
                    Err(PortFault::End) => Err(ArgError::BadPortEnd(value.to_owned())),
                    Err(PortFault::Single) => Err(ArgError::BadPort(value.to_owned())),
                }
            } else if k == 'i' {
                match look.interface {
                    Some(id) => Ok(Action::Prefixes(local_routes.for_iface(id))),
                    None => Err(ArgError::UnknownInterface(value.to_owned())),
                }
            } else if k == 'a' {
                match parse_prefix(value, look.address) {
                    Some(pfx) => {
                        let pfxs = vec![pfx];
                        assert(pfxs@ =~= seq![pfx]);
                        Ok(Action::Prefixes(pfxs))
                    },
                    None => Err(ArgError::BadPrefix(value.to_owned())),
                }
            } else {
                Err(ArgError::UnknownArgument(value.to_owned()))
            }
        },
        None => {
            if same(value, "-s") || same(value, "--self") {
                let users = vec![look.current_uid, look.effective_uid];
                assert(users@ =~= seq![look.current_uid, look.effective_uid]);
                return Ok(Action::Users(users));
            }
            proof {
                reveal_strlit("--");
            }
            if let Some(rest) = strip_prefix(value, "--") {
                if let Some(proto) = Protocol::parse(rest) {
                    return Ok(Action::Proto(proto));
                }
            }
            if let Some(proto) = Protocol::parse(value) {
                return Ok(Action::Proto(proto));
            }
            if let Some(pfx) = parse_prefix(value, look.address) {
                let pfxs = vec![pfx];
                assert(pfxs@ =~= seq![pfx]);
                return Ok(Action::Prefixes(pfxs));
            }
            if let Some(id) = look.interface {
                return Ok(Action::Prefixes(local_routes.for_iface(id)));
            }
            if let Some(uid) = look.user_by_name {
                let users = vec![uid];
                assert(users@ =~= seq![uid]);
                return Ok(Action::Users(users));
            }
            Err(ArgError::UnknownArgument(value.to_owned()))
        },
    }
}

/// Whether a text asks for the help text.
pub open spec fn is_help_text(arg: Seq<char>) -> bool {
    arg == "-h"@ || arg == "--help"@ || arg == "help"@ || arg == "-help"@ || arg == "--h"@ || arg
        == "-?"@
}

/// Whether an argument asks for the help text.
pub fn is_help(arg: &str) -> (r: bool)
    ensures
        r == is_help_text(arg@),
{
    same(arg, "-h") || same(arg, "--help") || same(arg, "help") || same(arg, "-help") || same(
        arg,
        "--h",
    ) || same(arg, "-?")
}

/// The number of a user that was asked for by a number that the host does
/// not know: such a filter is kept, but the user is warned.
pub open spec fn unknown_uid(kind: Option<char>, value: Seq<char>, look: Lookups) -> Option<u32> {
    if kind == Some('u') && look.user_by_name is None && unsigned(value, 0xffff_ffff) is Some
        && !look.uid_known {
        Some(unsigned(value, 0xffff_ffff)->0 as u32)
    } else {
        None
    }
}

/// The number of a user that was asked for by a number that the host does
/// not know.
pub fn warns_unknown_uid(kind: Option<char>, value: &str, look: &Lookups) -> (r: Option<u32>)
    ensures
        r == unknown_uid(kind, value@, *look),
{
    match kind {
        Some(k) => if k == 'u' && look.user_by_name.is_none() && !look.uid_known {
            parse_uid(value)
        } else {
            let ghost _v = unsigned(value@, 0xffff_ffff);
            None
        },
        None => None,
    }
}

/// The filters, as plain values.
pub struct Wanted {
    pub port: Seq<PortRange>,
    pub cmd: Seq<Seq<char>>,
    pub pid: Seq<i32>,
    pub proto: Seq<Protocol>,
    pub pfxs: Seq<Prefix>,
    pub user: Seq<u32>,
}

/// The filters as plain values.
pub open spec fn wanted(f: Filters) -> Wanted {
    Wanted {
        port: f.port@,
        cmd: texts(f.cmd@),
        pid: f.pid@,
        proto: f.proto@,
        pfxs: f.pfxs@,
        user: f.user@,
    }
}

/// No filter at all.
pub open spec fn nothing_wanted() -> Wanted {
    Wanted {
        port: Seq::empty(),
        cmd: Seq::empty(),
        pid: Seq::empty(),
        proto: Seq::empty(),
        pfxs: Seq::empty(),
        user: Seq::empty(),
    }
}

/// The filters after `plan` was added to them. What is added comes last
/// in its list; a protocol that is in the list already is not added again.
pub open spec fn added(w: Wanted, plan: Plan) -> Wanted {
    match plan {
        Plan::Cmd(word) => Wanted { cmd: w.cmd.push(word), ..w },
        Plan::Pid(pid) => Wanted { pid: w.pid.push(pid), ..w },
        Plan::Users(users) => Wanted { user: w.user + users, ..w },
        Plan::Port(range) => Wanted { port: w.port.push(range), ..w },
        Plan::Prefixes(pfxs) => Wanted { pfxs: w.pfxs + pfxs, ..w },
        Plan::Proto(proto) => if w.proto.contains(proto) {
            w
        } else {
            Wanted { proto: w.proto.push(proto), ..w }
        },
    }
}

/// Adds what an argument stands for to the filters.
pub fn perform(filters: &mut Filters, action: Action)
    ensures
        wanted(*final(filters)) == added(wanted(*old(filters)), action@),
{
    match action {
        Action::Cmd(word) => {
            filters.cmd.push(word);
            assert(texts(filters.cmd@) =~= texts(old(filters).cmd@).push(word@));
        },
        Action::Pid(pid) => {
            filters.pid.push(pid);
        },
        Action::Users(users) => {
            let mut i: usize = 0;
            assert(filters.user@ =~= old(filters).user@ + users@.take(0));
            while i < users.len()
                invariant
                    i <= users.len(),
                    filters.port == old(filters).port,
                    filters.cmd == old(filters).cmd,
                    filters.pid == old(filters).pid,
                    filters.proto == old(filters).proto,
                    filters.pfxs == old(filters).pfxs,
                    filters.user@ == old(filters).user@ + users@.take(i as int),
                decreases users.len() - i,
            {
                filters.user.push(users[i]);
                i = i + 1;
                assert(filters.user@ =~= old(filters).user@ + users@.take(i as int));
            }
            assert(users@.take(users.len() as int) =~= users@);
        },
        Action::Port(range) => {
            filters.port.push(range);
        },
        Action::Prefixes(pfxs) => {
            let mut i: usize = 0;
            assert(filters.pfxs@ =~= old(filters).pfxs@ + pfxs@.take(0));
            while i < pfxs.len()
                invariant
                    i <= pfxs.len(),
                    filters.port == old(filters).port,
                    filters.cmd == old(filters).cmd,
                    filters.pid == old(filters).pid,
                    filters.proto == old(filters).proto,
                    filters.user == old(filters).user,
                    filters.pfxs@ == old(filters).pfxs@ + pfxs@.take(i as int),
                decreases pfxs.len() - i,
            {
                filters.pfxs.push(pfxs[i]);
                i = i + 1;
                assert(filters.pfxs@ =~= old(filters).pfxs@ + pfxs@.take(i as int));
            }
            assert(pfxs@.take(pfxs.len() as int) =~= pfxs@);
        },
        Action::Proto(proto) => {
            if !filters.accept_proto(proto) || filters.proto.len() == 0 {
                filters.proto.push(proto);
            }
        },
    }
}

/// Whether some argument asks for the help text.
pub fn wants_help(args: &Vec<String>) -> (r: bool)
    ensures
        r == exists|i: int| 0 <= i < args.len() && is_help_text(#[trigger] texts(args@)[i]),
{
    let mut i: usize = 0;
    while i < args.len()
        invariant
            i <= args.len(),
            forall|j: int| 0 <= j < i ==> !is_help_text(#[trigger] texts(args@)[j]),
        decreases args.len() - i,
    {
        assert(texts(args@)[i as int] == args@[i as int]@);
        if is_help(args[i].as_str()) {
            return true;
        }
        i = i + 1;
    }
    false
}

/// One filter value of the command line: the letter of its filter, if it
/// names one, and its value; for an argument that names no filter, the
/// argument itself.
#[derive(Debug, Clone, PartialEq, Eq)]
pub struct Pending {
    pub kind: Option<char>,
    pub value: String,
}

/// The filter values that the arguments from place `i` on give, in order,
/// or the flag whose value is missing. A flag that stands alone takes the
/// next argument as its value.
pub open spec fn pending_from(args: Seq<Seq<char>>, i: int) -> Result<
    Seq<(Option<char>, Seq<char>)>,
    Seq<char>,
>
    decreases args.len() - i,
{
    if i < 0 || i >= args.len() {
        Ok(Seq::empty())
    } else {
        let next = if i + 1 < args.len() {
            Some(args[i + 1])
        } else {
            None
        };
        match by_rules(args[i], rules(), 0, next) {
            None => match pending_from(args, i + 1) {
                Ok(rest) => Ok(seq![(None, args[i])] + rest),
                Err(flag) => Err(flag),
            },
            Some((kind, Found::Missing(flag))) => Err(flag),
            Some((kind, Found::Value(value, took_next))) => match pending_from(
                args,
                if took_next && i + 1 < args.len() {
                    i + 2
                } else {
                    i + 1
                },
            ) {
                Ok(rest) => Ok(seq![(Some(kind), value)] + rest),
                Err(flag) => Err(flag),
            },
        }
    }
}

/// The kind and the characters of each filter value.
pub open spec fn pending_view(list: Seq<Pending>) -> Seq<(Option<char>, Seq<char>)> {
    list.map_values(|p: Pending| (p.kind, p.value@))
}

/// The filter values of a command line, whose first argument is the name
/// of the program and is passed over.
pub fn split_args(args: &Vec<String>) -> (r: Result<Vec<Pending>, ArgError>)
    ensures
        match r {
            Ok(list) => pending_from(texts(args@), 1) == Ok::<
                Seq<(Option<char>, Seq<char>)>,
                Seq<char>,
            >(pending_view(list@)),
            Err(e) => e matches ArgError::MissingValue(flag) && pending_from(texts(args@), 1)
                == Err::<Seq<(Option<char>, Seq<char>)>, Seq<char>>(flag@),
        },
{
    let mut out: Vec<Pending> = Vec::new();
    let n = args.len();
    let mut i: usize = 1;
    let ghost all = texts(args@);
    assert(pending_view(out@) =~= Seq::empty());
    while i < n
        invariant
            1 <= i,
            n == args.len(),
            all == texts(args@),
            match pending_from(all, i as int) {
                Ok(rest) => pending_from(all, 1) == Ok::<
                    Seq<(Option<char>, Seq<char>)>,
                    Seq<char>,
                >(pending_view(out@) + rest),
                Err(flag) => pending_from(all, 1) == Err::<
                    Seq<(Option<char>, Seq<char>)>,
                    Seq<char>,
                >(flag),
            },
        decreases n - i,
    {
        let next: Option<&String> = if i + 1 < n {
            Some(&args[i + 1])
        } else {
            None
        };
        assert(all[i as int] == args@[i as int]@);
        assert(crate::procs::borrowed_text(next) == if i + 1 < n {
            Some(all[i + 1])
        } else {
            None::<Seq<char>>
        });
        let ghost before = pending_view(out@);
        match match_arg(args[i].as_str(), next) {
            Err(e) => {
                return Err(e);
            },
            Ok(None) => {
                out.push(Pending { kind: None, value: args[i].clone() });
                proof {
                    assert(pending_view(out@) =~= before.push((None, all[i as int])));
                    match pending_from(all, i + 1) {
                        Ok(rest) => {
                            assert(before + (seq![(None::<char>, all[i as int])] + rest)
                                =~= pending_view(out@) + rest);
                        },
                        Err(_) => {},
                    }
                }
                i = i + 1;
            },
            Ok(Some(m)) => {
                let step: usize = if m.took_next && i + 1 < n {
                    2
                } else {
                    1
                };
                out.push(Pending { kind: Some(m.kind), value: m.value });
                proof {
                    assert(pending_view(out@) =~= before.push((Some(m.kind), m.value@)));
                    match pending_from(all, i + step) {
                        Ok(rest) => {
                            assert(before + (seq![(Some(m.kind), m.value@)] + rest)
                                =~= pending_view(out@) + rest);
                        },
                        Err(_) => {},
                    }
                }
                i = i + step;
            },
        }
    }
    proof {
        assert(pending_from(all, i as int) == Ok::<Seq<(Option<char>, Seq<char>)>, Seq<char>>(
            Seq::empty(),
        ));
        assert(pending_view(out@) + Seq::empty() =~= pending_view(out@));
    }
    Ok(out)
}

/// The filters after the filter values from place `i` on were added, each
/// with what the host knows of it, or the first fault among them.
pub open spec fn filled(
    w: Wanted,
    pending: Seq<(Option<char>, Seq<char>)>,
    looks: Seq<Lookups>,
    routes: Seq<Route>,
    i: int,
) -> Result<Wanted, (int, Fault)>
    decreases pending.len() - i,
{
    if i < 0 || i >= pending.len() || i >= looks.len() {
        Ok(w)
    } else {
        match decided(pending[i].0, pending[i].1, looks[i], routes) {
            Ok(plan) => filled(added(w, plan), pending, looks, routes, i + 1),
            Err(fault) => Err((i, fault)),
        }
    }
}

/// The filters that the filter values of a command line ask for.
/// `looks` holds for each value what the host knows of it; values beyond
/// those of which something is known are passed over.
pub fn parse_args(pending: &Vec<Pending>, looks: &Vec<Lookups>, local_routes: &Rtbl) -> (r: Result<
    Filters,
    ArgError,
>)
    ensures
        match r {
            Ok(filters) => filled(
                nothing_wanted(),
                pending_view(pending@),
                looks@,
                local_routes@,
                0,
            ) == Ok::<Wanted, (int, Fault)>(wanted(filters)),
            Err(e) => filled(
                nothing_wanted(),
                pending_view(pending@),
                looks@,
                local_routes@,
                0,
            ) matches Err((at, fault)) && fault == fault_of(e) && 0 <= at < pending.len()
                && subject(e) == pending@[at].value@,
        },
{
    let mut filters = Filters::empty();
    let mut i: usize = 0;
    let ghost start = nothing_wanted();
    proof {
        let w = wanted(filters);
        assert(w.port =~= Seq::empty());
        assert(w.cmd =~= Seq::empty());
        assert(w.pid =~= Seq::empty());
        assert(w.proto =~= Seq::empty());
        assert(w.pfxs =~= Seq::empty());
        assert(w.user =~= Seq::empty());
    }
    let ghost view = pending_view(pending@);
    while i < pending.len() && i < looks.len()
        invariant
            i <= pending.len(),
            i <= looks.len(),
            view == pending_view(pending@),
            start == nothing_wanted(),
            filled(start, view, looks@, local_routes@, 0) == filled(
                wanted(filters),
                view,
                looks@,
                local_routes@,
                i as int,
            ),
        decreases pending.len() - i,
    {
        assert(view[i as int] == (pending@[i as int].kind, pending@[i as int].value@));
        match decide(pending[i].kind, pending[i].value.as_str(), &looks[i], local_routes) {
            Ok(action) => {
                perform(&mut filters, action);
            },
            Err(e) => {
                return Err(e);
            },
        }
        i = i + 1;
    }
    Ok(filters)
}

} // verus!
