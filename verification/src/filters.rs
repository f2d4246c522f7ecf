//! The filters that decide what is shown.

use vstd::prelude::*;
use crate::addr::IpAddr;
use crate::procs::{path_text, text_of, ProcDesc};
use crate::route::Prefix;
use crate::sock::Protocol;
use crate::text::{contains, lowercase, occurs_in, texts, to_lowercase};

verus! {

/// A range of ports, both ends included.
#[derive(Debug, Clone, Copy, PartialEq, Eq, Structural)]
pub struct PortRange {
    pub start: u16,
    pub end: u16,
}

/// What the user asked to see. A list that is empty filters nothing.
#[derive(Debug)]
pub struct Filters {
    pub port: Vec<PortRange>,
    pub cmd: Vec<String>,
    pub pid: Vec<i32>,
    pub proto: Vec<Protocol>,
    pub pfxs: Vec<Prefix>,
    pub user: Vec<u32>,
}

/// Whether some range holds the port.
pub open spec fn in_ranges(ranges: Seq<PortRange>, port: u16) -> bool {
    exists|i: int|
        0 <= i < ranges.len() && (#[trigger] ranges[i]).start <= port && port <= ranges[i].end
}

/// Whether some prefix matches the address.
pub open spec fn in_prefixes(pfxs: Seq<Prefix>, addr: IpAddr) -> bool {
    exists|i: int| 0 <= i < pfxs.len() && (#[trigger] pfxs[i]).spec_matches(addr)
}

/// Whether `text` holds `word`, both taken in lower case.
pub open spec fn mentions(text: Seq<char>, word: Seq<char>) -> bool {
    occurs_in(lowercase(text), lowercase(word))
}

/// Whether some of the texts that describe a process holds `word`: its
/// shown name, its plain name, the path of its program file or one of its
/// arguments.
pub open spec fn describes(
    word: Seq<char>,
    shown: Option<Seq<char>>,
    plain: Option<Seq<char>>,
    exe: Option<Seq<char>>,
    cmdline: Option<Seq<Seq<char>>>,
) -> bool {
    ||| shown is Some && mentions(shown->0, word)
    ||| plain is Some && mentions(plain->0, word)
    ||| exe is Some && mentions(exe->0, word)
    ||| cmdline is Some && exists|k: int|
        0 <= k < cmdline->0.len() && mentions(#[trigger] cmdline->0[k], word)
}

/// Whether the command filter `words` lets a process with these texts
/// through: an empty filter lets every process through, another one those
/// that some of its words describes.
pub open spec fn passes(
    words: Seq<Seq<char>>,
    shown: Option<Seq<char>>,
    plain: Option<Seq<char>>,
    exe: Option<Seq<char>>,
    cmdline: Option<Seq<Seq<char>>>,
) -> bool {
    words.len() == 0 || described(words, shown, plain, exe, cmdline)
}

/// Whether some of the words describes the process.
pub open spec fn described(
    words: Seq<Seq<char>>,
    shown: Option<Seq<char>>,
    plain: Option<Seq<char>>,
    exe: Option<Seq<char>>,
    cmdline: Option<Seq<Seq<char>>>,
) -> bool {
    exists|w: int| 0 <= w < words.len() && describes(#[trigger] words[w], shown, plain, exe, cmdline)
}

/// Whether `text`, if there is one, holds `word`, which is in lower case.
fn option_mentions(text: &Option<String>, word: &str, Ghost(original): Ghost<Seq<char>>) -> (r: bool)
    requires
        word@ == lowercase(original),
    ensures
        r == (text_of(*text) is Some && mentions(text_of(*text)->0, original)),
{
    match text {
        Some(t) => {
            let lower = to_lowercase(t.as_str());
            contains(lower.as_str(), word)
        },
        None => false,
    }
}

impl Default for Filters {
    /// The filters that let everything through.
    fn default() -> (r: Filters)
        ensures
            r.port@.len() == 0,
            r.cmd@.len() == 0,
            r.pid@.len() == 0,
            r.proto@.len() == 0,
            r.pfxs@.len() == 0,
            r.user@.len() == 0,
    {
        Filters::empty()
    }
}

impl Filters {
    /// The filters that let everything through.
    pub fn empty() -> (r: Filters)
        ensures
            r.port@.len() == 0,
            r.cmd@.len() == 0,
            r.pid@.len() == 0,
            r.proto@.len() == 0,
            r.pfxs@.len() == 0,
            r.user@.len() == 0,
    {
        Filters {
            port: Vec::new(),
            cmd: Vec::new(),
            pid: Vec::new(),
            proto: Vec::new(),
            pfxs: Vec::new(),
            user: Vec::new(),
        }
    }

    /// Whether a process with this number is shown.
    pub fn accept_pid(&self, pid: i32) -> (r: bool)
        ensures
            r == (self.pid@.len() == 0 || self.pid@.contains(pid)),
    {
        if self.pid.len() == 0 {
            return true;
        }
        let mut i: usize = 0;
        while i < self.pid.len()
            invariant
                i <= self.pid.len(),
                forall|j: int| 0 <= j < i ==> self.pid@[j] != pid,
            decreases self.pid.len() - i,
        {
            if self.pid[i] == pid {
                return true;
            }
            i = i + 1;
        }
        false
    }

    /// Whether what this user owns is shown.
    pub fn accept_user(&self, uid: u32) -> (r: bool)
        ensures
            r == (self.user@.len() == 0 || self.user@.contains(uid)),
    {
        if self.user.len() == 0 {
            return true;
        }
        let mut i: usize = 0;
        while i < self.user.len()
            invariant
                i <= self.user.len(),
                forall|j: int| 0 <= j < i ==> self.user@[j] != uid,
            decreases self.user.len() - i,
        {
            if self.user[i] == uid {
                return true;
            }
            i = i + 1;
        }
        false
    }

    /// Whether sockets on this port are shown.
    pub fn accept_port(&self, port: u16) -> (r: bool)
        ensures
            r == (self.port@.len() == 0 || in_ranges(self.port@, port)),
    {
        if self.port.len() == 0 {
            return true;
        }
        let mut i: usize = 0;
        while i < self.port.len()
            invariant
                i <= self.port.len(),
                forall|j: int|
                    0 <= j < i ==> !((#[trigger] self.port@[j]).start <= port && port
                        <= self.port@[j].end),
            decreases self.port.len() - i,
        {
            if self.port[i].start <= port && port <= self.port[i].end {
                return true;
            }
            i = i + 1;
        }
        false
    }

    /// Whether sockets of this protocol are shown.
    pub fn accept_proto(&self, proto: Protocol) -> (r: bool)
        ensures
            r == (self.proto@.len() == 0 || self.proto@.contains(proto)),
    {
        if self.proto.len() == 0 {
            return true;
        }
        let mut i: usize = 0;
        while i < self.proto.len()
            invariant
                i <= self.proto.len(),
                forall|j: int| 0 <= j < i ==> self.proto@[j] != proto,
            decreases self.proto.len() - i,
        {
            if self.proto[i] == proto {
                return true;
            }
            i = i + 1;
        }
        false
    }

    /// Whether sockets on this address are shown: those on an address of
    /// one of the prefixes, and those on the wildcard address, which take
    /// traffic for every address.
    pub fn accept_addr(&self, addr: IpAddr) -> (r: bool)
        ensures
            r == (self.pfxs@.len() == 0 || in_prefixes(self.pfxs@, addr)
                || addr.spec_is_unspecified()),
    {
        if self.pfxs.len() == 0 {
            return true;
        }
        let mut i: usize = 0;
        while i < self.pfxs.len()
            invariant
                i <= self.pfxs.len(),
                forall|j: int| 0 <= j < i ==> !(#[trigger] self.pfxs@[j]).spec_matches(addr),
            decreases self.pfxs.len() - i,
        {
            if self.pfxs[i].matches(addr) {
                return true;
            }
            i = i + 1;
        }
        addr.is_unspecified()
    }

    /// Whether the sockets of tunnel interfaces are shown: they belong to
    /// no process, so a filter on processes hides them.
    pub fn accept_wg(&self) -> (r: bool)
        ensures
            r == (self.cmd@.len() == 0 && self.pid@.len() == 0),
    {
        self.cmd.len() == 0 && self.pid.len() == 0
    }

    /// Whether a process that these texts describe is shown: one that some
    /// word of the command filter describes.
    pub fn accept_texts(
        &self,
        shown: &Option<String>,
        plain: &Option<String>,
        exe: &Option<String>,
        cmdline: &Option<Vec<String>>,
    ) -> (r: bool)
        ensures
            r == passes(
                texts(self.cmd@),
                text_of(*shown),
                text_of(*plain),
                text_of(*exe),
                crate::procs::arguments(*cmdline),
            ),
    {
        if self.cmd.len() == 0 {
            return true;
        }
        let ghost cmdline_text = crate::procs::arguments(*cmdline);
        let mut w: usize = 0;
        while w < self.cmd.len()
            invariant
                w <= self.cmd.len(),
                cmdline_text == crate::procs::arguments(*cmdline),
                forall|j: int|
                    0 <= j < w ==> !describes(
                        #[trigger] texts(self.cmd@)[j],
                        text_of(*shown),
                        text_of(*plain),
                        text_of(*exe),
                        cmdline_text,
                    ),
            decreases self.cmd.len() - w,
        {
            let ghost original = self.cmd@[w as int]@;
            assert(texts(self.cmd@)[w as int] == original);
            let word = to_lowercase(self.cmd[w].as_str());
            let mut hit = option_mentions(shown, word.as_str(), Ghost(original))
                || option_mentions(plain, word.as_str(), Ghost(original)) || option_mentions(
                exe,
                word.as_str(),
                Ghost(original),
            );
            if !hit {
                match cmdline {
                    Some(args) => {
                        let mut k: usize = 0;
                        while k < args.len() && !hit
                            invariant
                                k <= args.len(),
                                word@ == lowercase(original),
                                hit ==> exists|m: int|
                                    0 <= m < args.len() && mentions(
                                        #[trigger] texts(args@)[m],
                                        original,
                                    ),
                                !hit ==> forall|m: int|
                                    0 <= m < k ==> !mentions(#[trigger] texts(args@)[m], original),
                            decreases args.len() - k,
                        {
                            let lower = to_lowercase(args[k].as_str());
                            assert(texts(args@)[k as int] == args@[k as int]@);
                            if contains(lower.as_str(), word.as_str()) {
                                hit = true;
                            }
                            k = k + 1;
                        }
                        proof {
                        assert(cmdline_text == Some(texts(args@)));
                        if hit {
                            let m = choose|m: int|
                                0 <= m < args.len() && mentions(
                                    #[trigger] texts(args@)[m],
                                    original,
                                );
                            assert(mentions(cmdline_text->0[m], original));
                        } else {
                            assert forall|m: int| 0 <= m < cmdline_text->0.len() implies !mentions(
                                #[trigger] cmdline_text->0[m],
                                original,
                            ) by {
                                assert(!mentions(texts(args@)[m], original));
                            }
                        }
                        }
                    },
                    None => {},
                }
            }
            if hit {
                assert(describes(
                    texts(self.cmd@)[w as int],
                    text_of(*shown),
                    text_of(*plain),
                    text_of(*exe),
                    cmdline_text,
                ));
                return true;
            }
            w = w + 1;
        }
        false
    }

    /// Whether the command filter lets a process through.
    pub fn accept_cmd(&self, pd: &ProcDesc) -> (r: bool)
        ensures
            r == passes(
                texts(self.cmd@),
                text_of(pd.name),
                text_of(pd.info.name),
                crate::procs::exe_text(pd.info.exe),
                crate::procs::arguments(pd.info.cmdline),
            ),
    {
        let exe = match &pd.info.exe {
            Some(path) => Some(path_text(path)),
            None => None,
        };
        let r = self.accept_texts(&pd.name, &pd.info.name, &exe, &pd.info.cmdline);
        assert(r == passes(
            texts(self.cmd@),
            text_of(pd.name),
            text_of(pd.info.name),
            text_of(exe),
            crate::procs::arguments(pd.info.cmdline),
        ));
        r
    }

    /// Whether a process is shown: if its number, its description and its
    /// user all pass.
    pub fn accept_process(&self, pd: &ProcDesc) -> (r: bool)
        ensures
            r == ((self.pid@.len() == 0 || self.pid@.contains(pd.pid)) && passes(
                texts(self.cmd@),
                text_of(pd.name),
                text_of(pd.info.name),
                crate::procs::exe_text(pd.info.exe),
                crate::procs::arguments(pd.info.cmdline),
            ) && (self.user@.len() == 0 || self.user@.contains(pd.uid))),
    {
        let exe = match &pd.info.exe {
            Some(path) => Some(path_text(path)),
            None => None,
        };
        let by_text = self.accept_texts(&pd.name, &pd.info.name, &exe, &pd.info.cmdline);
        assert(by_text == passes(
            texts(self.cmd@),
            text_of(pd.name),
            text_of(pd.info.name),
            text_of(exe),
            crate::procs::arguments(pd.info.cmdline),
        ));
        self.accept_pid(pd.pid) && by_text && self.accept_user(pd.uid)
    }
}

} // verus!
