//! Processes and the names under which they are shown.

use vstd::prelude::*;
use vstd::string::StrSliceExecFns;
use std::path::PathBuf;
use crate::registry::{find, Registry};
use crate::sock::{Ino, SockInfo};
use crate::text::{
    begins_with_one_of, join3, decimal, decimal_text, ends_with, has_prefix_among, is_among, last_index_of,
    lemma_last_index_of, rfind, same, starts_with, strip_prefix, tail, texts, views,
};

verus! {

/// The number of a process.
pub type Pid = i32;

/// `std::path::PathBuf`: the path of a file.
#[verifier::external_type_specification]
#[verifier::external_body]
pub struct ExPathBuf(PathBuf);

/// Whether a character is a digit of any script or another numeric
/// character: what `char::is_numeric` says of it.
pub uninterp spec fn numeric(c: char) -> bool;

/// Whether `c` is numeric, by `char::is_numeric`. The digits `0` to `9`
/// are numeric.
#[verifier::external_body]
pub(crate) fn is_numeric(c: char) -> (r: bool)
    ensures
        r == numeric(c),
        '0' <= c && c <= '9' ==> r,
{
    c.is_numeric()
}

/// The last component of a path as text, if it has one that names a file:
/// what `Path::file_name` gives, with whatever is no valid text in it
/// replaced as `OsStr::to_string_lossy` does.
pub uninterp spec fn file_name_of(path: PathBuf) -> Option<Seq<char>>;

/// A path as text, with whatever is no valid text in it replaced as
/// `Path::to_string_lossy` does.
pub uninterp spec fn path_text_of(path: PathBuf) -> Seq<char>;

/// The file name of a program file that may be missing.
pub open spec fn exe_file(exe: Option<PathBuf>) -> Option<Seq<char>> {
    match exe {
        Some(path) => file_name_of(path),
        None => None,
    }
}

/// The text of the path of a program file that may be missing.
pub open spec fn exe_text(exe: Option<PathBuf>) -> Option<Seq<char>> {
    match exe {
        Some(path) => Some(path_text_of(path)),
        None => None,
    }
}

/// The last component of a path as text, if it has one that names a file:
/// what `Path::file_name` gives, with whatever is no valid text in it
/// replaced as `OsStr::to_string_lossy` does.
#[verifier::external_body]
pub(crate) fn file_name(path: &PathBuf) -> (r: Option<String>)
    ensures
        match r {
            Some(name) => file_name_of(*path) == Some(name@),
            None => file_name_of(*path) is None,
        },
{
    path.file_name().map(|name| name.to_string_lossy().into_owned())
}

/// A path as text, with whatever is no valid text in it replaced as
/// `Path::to_string_lossy` does.
#[verifier::external_body]
pub(crate) fn path_text(path: &PathBuf) -> (r: String)
    ensures
        r@ == path_text_of(*path),
{
    path.to_string_lossy().into_owned()
}

/// What is known of a process before a name is made up for it.
#[derive(Debug, PartialEq, Eq, PartialOrd, Ord)]
pub struct ProcNamePre {
    /// The name of its program file, else its first argument.
    pub name: Option<String>,
    /// Its program file.
    pub exe: Option<PathBuf>,
    /// Its arguments, the program first.
    pub cmdline: Option<Vec<String>>,
}

/// A process that holds listening sockets.
#[derive(Debug, PartialEq, Eq)]
pub struct ProcDesc {
    pub pid: Pid,
    /// The name of the user, or the user's number where no name is known.
    pub user: String,
    pub uid: u32,
    /// The name under which the process is shown.
    pub name: Option<String>,
    pub info: ProcNamePre,
    pub sockets: Vec<SockInfo>,
}

/// What stands behind the last slash of `comm`, or all of it.
pub open spec fn base_name(comm: Seq<char>) -> Seq<char> {
    match last_index_of(comm, '/') {
        Some(p) => comm.skip(p + 1),
        None => comm,
    }
}

/// Whether `comm` names the program `name`, possibly with a version: its
/// base name is `name`, followed by nothing but numeric characters and dots.
pub open spec fn looks_like(name: Seq<char>, comm: Seq<char>) -> bool {
    let base = base_name(comm);
    name.is_prefix_of(base) && forall|k: int|
        name.len() <= k < base.len() ==> numeric(#[trigger] base[k]) || base[k] == '.'
}

/// Whether a text is a version in plain digits: nothing but the digits `0`
/// to `9` and dots.
pub open spec fn plain_version(s: Seq<char>) -> bool {
    forall|k: int| 0 <= k < s.len() ==> ('0' <= #[trigger] s[k] && s[k] <= '9') || s[k] == '.'
}

/// Whether `comm` names the program `name`, possibly with a version. It
/// does if its base name is `name` followed by a version in plain digits.
pub fn looks_ish(name: &str, comm: &str) -> (r: bool)
    ensures
        r == looks_like(name@, comm@),
        name@.is_prefix_of(base_name(comm@)) && plain_version(
            base_name(comm@).skip(name@.len() as int),
        ) ==> r,
{
    proof {
        lemma_last_index_of(comm@, '/');
    }
    let len = comm.unicode_len();
    let base = match rfind(comm, '/') {
        Some(p) => tail(comm, p + 1),
        None => comm,
    };
    match strip_prefix(base, name) {
        Some(suffix) => {
            let n = suffix.unicode_len();
            let mut i: usize = 0;
            while i < n
                invariant
                    i <= n,
                    n == suffix@.len(),
                    base@ == base_name(comm@),
                    name@.is_prefix_of(base@),
                    suffix@ == base@.skip(name@.len() as int),
                    forall|k: int| 0 <= k < i ==> numeric(#[trigger] suffix@[k]) || suffix@[k] == '.',
                decreases n - i,
            {
                let c = suffix.get_char(i);
                if !(is_numeric(c) || c == '.') {
                    assert(base@[name@.len() + i] == suffix@[i as int]);
                    return false;
                }
                i = i + 1;
            }
            assert forall|k: int| name@.len() <= k < base@.len() implies numeric(
                #[trigger] base@[k],
            ) || base@[k] == '.' by {
                assert(base@[k] == suffix@[k - name@.len()]);
            }
            true
        },
        None => false,
    }
}

/// An option of an interpreter that needs a rule of its own.
#[derive(Debug, Clone, Copy, PartialEq, Eq, Structural)]
pub enum Special {
    /// No option does.
    Nothing,
    /// `-m` of Python: the module that follows is what runs.
    PythonModule,
    /// `-jar` of Java: the archive that follows is what runs.
    JavaJar,
}

/// How the arguments of an interpreter are read.
pub struct Grammar {
    /// The ending by which a script is known, if there is one.
    pub extension: Option<Seq<char>>,
    /// The options that take the next argument as their value.
    pub has_arg: Seq<Seq<char>>,
    /// The options that stand alone.
    pub no_arg: Seq<Seq<char>>,
    /// The beginnings of options that carry their value in themselves.
    pub prefix_arg: Seq<Seq<char>>,
    /// The option with a rule of its own.
    pub special: Special,
}

/// What the special rule of an interpreter makes of `arg`, given what
/// follows it: nothing if the rule does not apply; else the name that it
/// gives the process, if it gives one.
pub open spec fn special_name(
    special: Special,
    name: Seq<char>,
    arg: Seq<char>,
    next: Option<Seq<char>>,
) -> Option<Option<Seq<char>>> {
    match special {
        Special::PythonModule => if arg == "-m"@ {
            Some(
                match next {
                    Some(module) => Some(name + " -m "@ + module),
                    None => None,
                },
            )
        } else {
            None
        },
        Special::JavaJar => if arg == "-jar"@ {
            Some(
                match next {
                    Some(jar) => if ".jar"@.is_suffix_of(jar) {
                        Some(jar)
                    } else {
                        None
                    },
                    None => None,
                },
            )
        } else {
            None
        },
        Special::Nothing => None,
    }
}

/// The name that the arguments from place `i` on give a process that runs
/// the interpreter `name`.
///
/// The arguments are read in order. The special rule comes first. After
/// `--` the next argument is the name. A known option is passed over, with
/// its value if it takes one; an unknown option ends the search without a
/// name. The first argument that is no option is the script: it is the name
/// itself if it has the ending of a script, else the name is that of the
/// interpreter followed by it.
pub open spec fn scanned(name: Seq<char>, args: Seq<Seq<char>>, i: int, g: Grammar) -> Option<
    Seq<char>,
>
    decreases args.len() - i,
{
    if i < 0 || i >= args.len() {
        None
    } else {
        let arg = args[i];
        let next = if i + 1 < args.len() {
            Some(args[i + 1])
        } else {
            None
        };
        match special_name(g.special, name, arg, next) {
            Some(found) => found,
            None => if arg == "--"@ {
                next
            } else if g.has_arg.contains(arg) {
                if i + 1 < args.len() {
                    scanned(name, args, i + 2, g)
                } else {
                    None
                }
            } else if g.no_arg.contains(arg) {
                scanned(name, args, i + 1, g)
            } else if has_prefix_among(g.prefix_arg, arg) {
                scanned(name, args, i + 1, g)
            } else if "-"@.is_prefix_of(arg) {
                None
            } else if g.extension is Some && g.extension->0.is_suffix_of(arg) {
                Some(arg)
            } else {
                Some(name + " "@ + arg)
            },
        }
    }
}

/// The name of a process that runs `interpreter`, from the name of the
/// process, the name of its program file and its arguments: none unless all
/// three are known and the name, the file and the first argument all name
/// the interpreter; else what the arguments behind the first give.
pub open spec fn interpreted(
    interpreter: Seq<char>,
    g: Grammar,
    name: Option<Seq<char>>,
    exe_file: Option<Seq<char>>,
    cmdline: Option<Seq<Seq<char>>>,
) -> Option<Seq<char>> {
    if name is None || exe_file is None || cmdline is None {
        None
    } else if !looks_like(interpreter, name->0) || !looks_like(interpreter, exe_file->0) {
        None
    } else if cmdline->0.len() == 0 || !looks_like(interpreter, cmdline->0[0]) {
        None
    } else {
        scanned(name->0, cmdline->0, 1, g)
    }
}

/// The characters of a string that may be missing.
pub open spec fn text_of(s: Option<String>) -> Option<Seq<char>> {
    match s {
        Some(s) => Some(s@),
        None => None,
    }
}

/// The characters of a borrowed string that may be missing.
pub open spec fn borrowed_text(s: Option<&String>) -> Option<Seq<char>> {
    match s {
        Some(s) => Some(s@),
        None => None,
    }
}

/// What the special rule of an interpreter makes of `arg`.
fn special_case(special: Special, name: &str, arg: &str, next: Option<&String>) -> (r: Option<
    Option<String>,
>)
    ensures
        match r {
            Some(found) => special_name(special, name@, arg@, borrowed_text(next))
                == Some(text_of(found)),
            None => special_name(special, name@, arg@, borrowed_text(next)) is None,
        },
{
    match special {
        Special::PythonModule => if same(arg, "-m") {
            Some(
                match next {
                    Some(module) => Some(join3(name, " -m ", module.as_str())),
                    None => None,
                },
            )
        } else {
            None
        },
        Special::JavaJar => if same(arg, "-jar") {
            Some(
                match next {
                    Some(jar) => if ends_with(jar.as_str(), ".jar") {
                        Some(jar.clone())
                    } else {
                        None
                    },
                    None => None,
                },
            )
        } else {
            None
        },
        Special::Nothing => None,
    }
}

/// The name that the arguments behind the first give a process that runs
/// the interpreter `name`.
pub fn scan(
    name: &str,
    args: &Vec<String>,
    extension: Option<&str>,
    has_arg: &Vec<&str>,
    no_arg: &Vec<&str>,
    prefix_arg: &Vec<&str>,
    special: Special,
) -> (r: Option<String>)
    ensures
        text_of(r) == scanned(
            name@,
            texts(args@),
            1,
            Grammar {
                extension: match extension {
                    Some(e) => Some(e@),
                    None => None,
                },
                has_arg: views(has_arg@),
                no_arg: views(no_arg@),
                prefix_arg: views(prefix_arg@),
                special,
            },
        ),
{
    let ghost g = Grammar {
        extension: match extension {
            Some(e) => Some(e@),
            None => None,
        },
        has_arg: views(has_arg@),
        no_arg: views(no_arg@),
        prefix_arg: views(prefix_arg@),
        special,
    };
    let n = args.len();
    let mut i: usize = 1;
    while i < n
        invariant
            1 <= i,
            n == args.len(),
            scanned(name@, texts(args@), 1, g) == scanned(name@, texts(args@), i as int, g),
            g.extension == (match extension {
                Some(e) => Some(e@),
                None => None,
            }),
            g.has_arg == views(has_arg@),
            g.no_arg == views(no_arg@),
            g.prefix_arg == views(prefix_arg@),
            g.special == special,
        decreases n - i,
    {
        let arg = args[i].as_str();
        let next: Option<&String> = if i + 1 < n {
            Some(&args[i + 1])
        } else {
            None
        };
        assert(texts(args@)[i as int] == arg@);
        assert(borrowed_text(next) == if i + 1 < n {
            Some(texts(args@)[i + 1])
        } else {
            None::<Seq<char>>
        });
        match special_case(special, name, arg, next) {
            Some(found) => {
                return found;
            },
            None => {},
        }
        if same(arg, "--") {
            return match next {
                Some(s) => Some(s.clone()),
                None => None,
            };
        } else if is_among(arg, has_arg) {
            if i + 1 < n {
                i = i + 2;
            } else {
                return None;
            }
        } else if is_among(arg, no_arg) {
            i = i + 1;
        } else if begins_with_one_of(arg, prefix_arg) {
            i = i + 1;
        } else if starts_with(arg, "-") {
            return None;
        } else {
            let script = match extension {
                Some(e) => ends_with(arg, e),
                None => false,
            };
            if script {
                return Some(args[i].clone());
            } else {
                return Some(join3(name, " ", arg));
            }
        }
    }
    None
}

/// The characters of each argument of a command line that may be missing.
pub open spec fn arguments(cmdline: Option<Vec<String>>) -> Option<Seq<Seq<char>>> {
    match cmdline {
        Some(args) => Some(texts(args@)),
        None => None,
    }
}

/// How the arguments of an interpreter are read, from the lists that
/// describe its options.
pub open spec fn grammar(
    extension: Option<&str>,
    has_arg: Seq<&str>,
    no_arg: Seq<&str>,
    prefix_arg: Seq<&str>,
    special: Special,
) -> Grammar {
    Grammar {
        extension: match extension {
            Some(e) => Some(e@),
            None => None,
        },
        has_arg: views(has_arg),
        no_arg: views(no_arg),
        prefix_arg: views(prefix_arg),
        special,
    }
}

/// The name of a process that runs `interpreter`, from the name of the
/// process, the name of its program file and its arguments.
pub fn interpreter_name(
    interpreter: &str,
    extension: Option<&str>,
    has_arg: &Vec<&str>,
    no_arg: &Vec<&str>,
    prefix_arg: &Vec<&str>,
    special: Special,
    name: &Option<String>,
    exe_file: &Option<String>,
    cmdline: &Option<Vec<String>>,
) -> (r: Option<String>)
    ensures
        text_of(r) == interpreted(
            interpreter@,
            grammar(extension, has_arg@, no_arg@, prefix_arg@, special),
            text_of(*name),
            text_of(*exe_file),
            arguments(*cmdline),
        ),
{
    match (name, exe_file, cmdline) {
        (Some(name), Some(exe_file), Some(cmdline)) => {
            if !looks_ish(interpreter, name.as_str()) || !looks_ish(interpreter, exe_file.as_str()) {
                return None;
            }
            if cmdline.len() == 0 {
                return None;
            }
            assert(texts(cmdline@)[0] == cmdline@[0]@);
            if !looks_ish(interpreter, cmdline[0].as_str()) {
                return None;
            }
            scan(name.as_str(), cmdline, extension, has_arg, no_arg, prefix_arg, special)
        },
        _ => None,
    }
}

/// `r` is the name that the grammar `g` of `interpreter` gives the process
/// `p`: what its name, the file name of its program file and its arguments
/// give.
pub open spec fn names(interpreter: Seq<char>, g: Grammar, p: ProcNamePre, r: Option<String>)
    -> bool {
    text_of(r) == interpreted(interpreter, g, text_of(p.name), exe_file(p.exe), arguments(p.cmdline))
}

/// The name of a process that runs `interpreter`, if it is one and its
/// arguments tell what it runs.
pub fn interpreter_ps_name(
    interpreter: &str,
    extension: Option<&str>,
    has_arg: &Vec<&str>,
    no_arg: &Vec<&str>,
    prefix_arg: &Vec<&str>,
    proc_name_pre: &ProcNamePre,
    special: Special,
) -> (r: Option<String>)
    ensures
        names(
            interpreter@,
            grammar(extension, has_arg@, no_arg@, prefix_arg@, special),
            *proc_name_pre,
            r,
        ),
{
    let exe_file = match &proc_name_pre.exe {
        Some(path) => file_name(path),
        None => None,
    };
    let r = interpreter_name(
        interpreter,
        extension,
        has_arg,
        no_arg,
        prefix_arg,
        special,
        &proc_name_pre.name,
        &exe_file,
        &proc_name_pre.cmdline,
    );
    assert(text_of(r) == interpreted(
        interpreter@,
        grammar(extension, has_arg@, no_arg@, prefix_arg@, special),
        text_of(proc_name_pre.name),
        text_of(exe_file),
        arguments(proc_name_pre.cmdline),
    ));
    r
}

/// The options of Java that take the next argument as their value.
pub open spec fn java_has_arg() -> Seq<&'static str> {
    seq!["-classpath", "-cp"]
}

/// The options of Java that stand alone.
pub open spec fn java_no_arg() -> Seq<&'static str> {
    seq!["-d32", "-d64"]
}

/// The beginnings of the options of Java that carry their value.
pub open spec fn java_prefix_arg() -> Seq<&'static str> {
    seq!["-javaagent:", "-agentlib:", "-agentpath", "-verbose:", "-D", "-X"]
}

/// The name of a Java process: the archive behind `-jar`, else `java` and
/// the class that runs.
/// It is made from the name of the process, the file name of its program
/// and its arguments.
pub fn java_name(
    name: &Option<String>,
    exe_file: &Option<String>,
    cmdline: &Option<Vec<String>>,
) -> (r: Option<String>)
    ensures
        text_of(r) == interpreted(
            "java"@,
            java_grammar(),
            text_of(*name),
            text_of(*exe_file),
            arguments(*cmdline),
        ),
{
    let has_arg = vec!["-classpath", "-cp"];
    let no_arg = vec!["-d32", "-d64"];
    let prefix_arg = vec!["-javaagent:", "-agentlib:", "-agentpath", "-verbose:", "-D", "-X"];
    assert(has_arg@ =~= java_has_arg());
    assert(no_arg@ =~= java_no_arg());
    assert(prefix_arg@ =~= java_prefix_arg());
    interpreter_name(
        "java",
        None,
        &has_arg,
        &no_arg,
        &prefix_arg,
        Special::JavaJar,
        name,
        exe_file,
        cmdline,
    )
}

/// The name of a Java process: the archive behind `-jar`, else `java` and
/// the class that runs.
pub fn java_ps_name(proc_name_pre: &ProcNamePre) -> (r: Option<String>)
    ensures
        names("java"@, java_grammar(), *proc_name_pre, r),
{
    let exe_file = match &proc_name_pre.exe {
        Some(path) => file_name(path),
        None => None,
    };
    let r = java_name(&proc_name_pre.name, &exe_file, &proc_name_pre.cmdline);
    assert(text_of(r) == interpreted(
        "java"@,
        java_grammar(),
        text_of(proc_name_pre.name),
        text_of(exe_file),
        arguments(proc_name_pre.cmdline),
    ));
    r
}

/// The options of Lua that take the next argument as their value.
pub open spec fn lua_has_arg() -> Seq<&'static str> {
    seq!["-l"]
}

/// The options of Lua that stand alone.
pub open spec fn lua_no_arg() -> Seq<&'static str> {
    seq!["-i", "-E"]
}

/// The name of a Lua process: the script that it runs.
/// It is made from the name of the process, the file name of its program
/// and its arguments.
pub fn lua_name(
    name: &Option<String>,
    exe_file: &Option<String>,
    cmdline: &Option<Vec<String>>,
) -> (r: Option<String>)
    ensures
        text_of(r) == interpreted(
            "lua"@,
            lua_grammar(),
            text_of(*name),
            text_of(*exe_file),
            arguments(*cmdline),
        ),
{
    let has_arg = vec!["-l"];
    let no_arg = vec!["-i", "-E"];
    let prefix_arg: Vec<&str> = Vec::new();
    assert(has_arg@ =~= lua_has_arg());
    assert(no_arg@ =~= lua_no_arg());
    interpreter_name(
        "lua",
        Some(".lua"),
        &has_arg,
        &no_arg,
        &prefix_arg,
        Special::Nothing,
        name,
        exe_file,
        cmdline,
    )
}

/// The name of a Lua process: the script that it runs.
pub fn lua_ps_name(proc_name_pre: &ProcNamePre) -> (r: Option<String>)
    ensures
        names("lua"@, lua_grammar(), *proc_name_pre, r),
{
    let exe_file = match &proc_name_pre.exe {
        Some(path) => file_name(path),
        None => None,
    };
    let r = lua_name(&proc_name_pre.name, &exe_file, &proc_name_pre.cmdline);
    assert(text_of(r) == interpreted(
        "lua"@,
        lua_grammar(),
        text_of(proc_name_pre.name),
        text_of(exe_file),
        arguments(proc_name_pre.cmdline),
    ));
    r
}

/// The options of Python that take the next argument as their value. `-c`
/// is left out on purpose: a command is no name.
pub open spec fn python_has_arg() -> Seq<&'static str> {
    seq!["--check-hash-based-pycs", "-m", "-Q", "-W", "-X"]
}

/// The options of Python that stand alone.
pub open spec fn python_no_arg() -> Seq<&'static str> {
    seq![
        "-3",
        "-b",
        "-B",
        "-d",
        "-E",
        "-h",
        "-i",
        "-I",
        "-O",
        "-OO",
        "-q",
        "-R",
        "-s",
        "-S",
        "-t",
        "-u",
        "-v",
        "-V",
        "-x",
    ]
}

/// The name of a Python process: the interpreter with `-m` and the module,
/// or the script that it runs.
/// It is made from the name of the process, the file name of its program
/// and its arguments.
pub fn py_name(
    name: &Option<String>,
    exe_file: &Option<String>,
    cmdline: &Option<Vec<String>>,
) -> (r: Option<String>)
    ensures
        text_of(r) == interpreted(
            "python"@,
            python_grammar(),
            text_of(*name),
            text_of(*exe_file),
            arguments(*cmdline),
        ),
{
    let has_arg = vec!["--check-hash-based-pycs", "-m", "-Q", "-W", "-X"];
    let no_arg = vec![
        "-3",
        "-b",
        "-B",
        "-d",
        "-E",
        "-h",
        "-i",
        "-I",
        "-O",
        "-OO",
        "-q",
        "-R",
        "-s",
        "-S",
        "-t",
        "-u",
        "-v",
        "-V",
        "-x",
    ];
    let prefix_arg: Vec<&str> = Vec::new();
    assert(has_arg@ =~= python_has_arg());
    assert(no_arg@ =~= python_no_arg());
    interpreter_name(
        "python",
        Some(".py"),
        &has_arg,
        &no_arg,
        &prefix_arg,
        Special::PythonModule,
        name,
        exe_file,
        cmdline,
    )
}

/// The name of a Python process: the interpreter with `-m` and the module,
/// or the script that it runs.
pub fn py_ps_name(proc_name_pre: &ProcNamePre) -> (r: Option<String>)
    ensures
        names("python"@, python_grammar(), *proc_name_pre, r),
{
    let exe_file = match &proc_name_pre.exe {
        Some(path) => file_name(path),
        None => None,
    };
    let r = py_name(&proc_name_pre.name, &exe_file, &proc_name_pre.cmdline);
    assert(text_of(r) == interpreted(
        "python"@,
        python_grammar(),
        text_of(proc_name_pre.name),
        text_of(exe_file),
        arguments(proc_name_pre.cmdline),
    ));
    r
}

/// The options of Node that take the next argument as their value.
pub open spec fn node_has_arg() -> Seq<&'static str> {
    seq![
        "-C",
        "--conditions",
        "-r",
        "--require",
    ]
}

/// The options of Node that stand alone.
pub open spec fn node_no_arg() -> Seq<&'static str> {
    seq![
        "--abort-on-uncaught-exception",
        "--completion-bash",
        "--cpu-prof",
        "--disallow-code-generation-from-strings",
        "--enable-fips",
        "--enable-source-maps",
        "--experimental-global-webcrypto",
        "--experimental-import-meta-resolve",
        "--experimental-network-imports",
        "--experimental-policy",
        "--experimental-shadow-realm",
        "--no-experimental-fetch",
        "--no-experimental-global-customevent",
        "--no-experimental-global-webcrypto",
        "--no-experimental-repl-await",
        "--experimental-vm-modules",
        "--experimental-wasi-unstable-preview1",
        "--experimental-wasm-modules",
        "--force-context-aware",
        "--force-fips",
        "--frozen-intrinsics",
        "--heap-prof",
        "--insecure-http-parser",
        "--jitless",
        "--napi-modules",
        "--no-deprecation",
        "--no-extra-info-on-fatal-exception",
        "--no-force-async-hooks-checks",
        "--no-addons",
        "--no-global-search-paths",
        "--no-warnings",
        "--node-memory-debug",
        "--pending-deprecation",
        "--preserve-symlinks",
        "--preserve-symlinks-main",
        "--prof",
        "--prof-process",
        "--report-compact",
        "--report-on-fatalerror",
        "--report-on-signal",
        "--report-signal",
        "--report-uncaught-exception",
        "--throw-deprecation",
        "--tls-max-v1.2",
        "--tls-max-v1.3",
        "--tls-min-v1.0",
        "--tls-min-v1.1",
        "--tls-min-v1.2",
        "--tls-min-v1.3",
        "--trace-atomics-wait",
        "--trace-deprecation",
        "--trace-event-categories categories",
        "--trace-event-file-pattern pattern",
        "--trace-events-enabled",
        "--trace-exit",
        "--trace-sigint",
        "--trace-sync-io",
        "--trace-tls",
        "--trace-uncaught",
        "--trace-warnings",
        "--track-heap-objects",
        "--update-assert-snapshot",
        "--use-bundled-ca",
        "--use-openssl-ca",
        "--v8-options",
        "--zero-fill-buffers",
        "-c",
        "--check",
        "-i",
        "--interactive",
    ]
}

/// The beginnings of the options of Node that carry their value.
pub open spec fn node_prefix_arg() -> Seq<&'static str> {
    seq![
        "--disable-proto=",
        "--experimental-loader=",
        "--heapsnapshot-near-heap-limit=",
        "--heapsnapshot-signal=",
        "--icu-data-dir=",
        "--input-type=",
        "--inspect-brk=",
        "--inspect-port=",
        "--inspect-publish-uid=",
        "--inspect=",
        "--max-http-header-size=",
        "--openssl-config=",
        "--policy-integrity=",
        "--redirect-warnings=",
        "--secure-heap=",
        "--secure-heap-min=",
        "--title=",
        "--tls-cipher-list=",
        "--tls-keylog=",
        "--unhandled-rejections=",
        "--use-largepages=",
        "--v8-pool-size=",
    ]
}

/// The options of Node that stand alone.
fn node_flags() -> (r: Vec<&'static str>)
    ensures
        r@ == node_no_arg(),
{
    let r = vec![
        "--abort-on-uncaught-exception",
        "--completion-bash",
        "--cpu-prof",
        "--disallow-code-generation-from-strings",
        "--enable-fips",
        "--enable-source-maps",
        "--experimental-global-webcrypto",
        "--experimental-import-meta-resolve",
        "--experimental-network-imports",
        "--experimental-policy",
        "--experimental-shadow-realm",
        "--no-experimental-fetch",
        "--no-experimental-global-customevent",
        "--no-experimental-global-webcrypto",
        "--no-experimental-repl-await",
        "--experimental-vm-modules",
        "--experimental-wasi-unstable-preview1",
        "--experimental-wasm-modules",
        "--force-context-aware",
        "--force-fips",
        "--frozen-intrinsics",
        "--heap-prof",
        "--insecure-http-parser",
        "--jitless",
        "--napi-modules",
        "--no-deprecation",
        "--no-extra-info-on-fatal-exception",
        "--no-force-async-hooks-checks",
        "--no-addons",
        "--no-global-search-paths",
        "--no-warnings",
        "--node-memory-debug",
        "--pending-deprecation",
        "--preserve-symlinks",
        "--preserve-symlinks-main",
        "--prof",
        "--prof-process",
        "--report-compact",
        "--report-on-fatalerror",
        "--report-on-signal",
        "--report-signal",
        "--report-uncaught-exception",
        "--throw-deprecation",
        "--tls-max-v1.2",
        "--tls-max-v1.3",
        "--tls-min-v1.0",
        "--tls-min-v1.1",
        "--tls-min-v1.2",
        "--tls-min-v1.3",
        "--trace-atomics-wait",
        "--trace-deprecation",
        "--trace-event-categories categories",
        "--trace-event-file-pattern pattern",
        "--trace-events-enabled",
        "--trace-exit",
        "--trace-sigint",
        "--trace-sync-io",
        "--trace-tls",
        "--trace-uncaught",
        "--trace-warnings",
        "--track-heap-objects",
        "--update-assert-snapshot",
        "--use-bundled-ca",
        "--use-openssl-ca",
        "--v8-options",
        "--zero-fill-buffers",
        "-c",
        "--check",
        "-i",
        "--interactive",
    ];
    assert(r@ =~= node_no_arg());
    r
}

/// The beginnings of the options of Node that carry their value.
fn node_prefixes() -> (r: Vec<&'static str>)
    ensures
        r@ == node_prefix_arg(),
{
    let r = vec![
        "--disable-proto=",
        "--experimental-loader=",
        "--heapsnapshot-near-heap-limit=",
        "--heapsnapshot-signal=",
        "--icu-data-dir=",
        "--input-type=",
        "--inspect-brk=",
        "--inspect-port=",
        "--inspect-publish-uid=",
        "--inspect=",
        "--max-http-header-size=",
        "--openssl-config=",
        "--policy-integrity=",
        "--redirect-warnings=",
        "--secure-heap=",
        "--secure-heap-min=",
        "--title=",
        "--tls-cipher-list=",
        "--tls-keylog=",
        "--unhandled-rejections=",
        "--use-largepages=",
        "--v8-pool-size=",
    ];
    assert(r@ =~= node_prefix_arg());
    r
}

/// The name of a Node process: `node` and the script that it runs. There
/// are too many ways to run a script for an ending to tell one.
/// It is made from the name of the process, the file name of its program
/// and its arguments.
pub fn node_name(
    name: &Option<String>,
    exe_file: &Option<String>,
    cmdline: &Option<Vec<String>>,
) -> (r: Option<String>)
    ensures
        text_of(r) == interpreted(
            "node"@,
            node_grammar(),
            text_of(*name),
            text_of(*exe_file),
            arguments(*cmdline),
        ),
{
    let has_arg = vec![
        "-C",
        "--conditions",
        "-r",
        "--require",
    ];
    assert(has_arg@ =~= node_has_arg());
    let no_arg = node_flags();
    let prefix_arg = node_prefixes();
    interpreter_name(
        "node",
        None,
        &has_arg,
        &no_arg,
        &prefix_arg,
        Special::Nothing,
        name,
        exe_file,
        cmdline,
    )
}

/// The name of a Node process: `node` and the script that it runs. There
/// are too many ways to run a script for an ending to tell one.
pub fn node_ps_name(proc_name_pre: &ProcNamePre) -> (r: Option<String>)
    ensures
        names("node"@, node_grammar(), *proc_name_pre, r),
{
    let exe_file = match &proc_name_pre.exe {
        Some(path) => file_name(path),
        None => None,
    };
    let r = node_name(&proc_name_pre.name, &exe_file, &proc_name_pre.cmdline);
    assert(text_of(r) == interpreted(
        "node"@,
        node_grammar(),
        text_of(proc_name_pre.name),
        text_of(exe_file),
        arguments(proc_name_pre.cmdline),
    ));
    r
}

/// How the arguments of Java are read.
pub open spec fn java_grammar() -> Grammar {
    grammar(None, java_has_arg(), java_no_arg(), java_prefix_arg(), Special::JavaJar)
}

/// How the arguments of Lua are read.
pub open spec fn lua_grammar() -> Grammar {
    grammar(Some(".lua"), lua_has_arg(), lua_no_arg(), Seq::empty(), Special::Nothing)
}

/// How the arguments of Python are read.
pub open spec fn python_grammar() -> Grammar {
    grammar(Some(".py"), python_has_arg(), python_no_arg(), Seq::empty(), Special::PythonModule)
}

/// How the arguments of Node are read.
pub open spec fn node_grammar() -> Grammar {
    grammar(None, node_has_arg(), node_no_arg(), node_prefix_arg(), Special::Nothing)
}

/// The plain name of a process: the name of its program file, else its
/// first argument.
pub open spec fn plain_name(exe_file: Option<Seq<char>>, cmdline: Option<Seq<Seq<char>>>) -> Option<
    Seq<char>,
> {
    match exe_file {
        Some(file) => Some(file),
        None => match cmdline {
            Some(args) => if args.len() > 0 {
                Some(args[0])
            } else {
                None
            },
            None => None,
        },
    }
}

/// The name under which a process is shown: what Python, Lua, Java or
/// Node, tried in this order, make of its arguments, else its plain name.
pub open spec fn shown_name(
    name: Option<Seq<char>>,
    exe_file: Option<Seq<char>>,
    cmdline: Option<Seq<Seq<char>>>,
) -> Option<Seq<char>> {
    if interpreted("python"@, python_grammar(), name, exe_file, cmdline) is Some {
        interpreted("python"@, python_grammar(), name, exe_file, cmdline)
    } else if interpreted("lua"@, lua_grammar(), name, exe_file, cmdline) is Some {
        interpreted("lua"@, lua_grammar(), name, exe_file, cmdline)
    } else if interpreted("java"@, java_grammar(), name, exe_file, cmdline) is Some {
        interpreted("java"@, java_grammar(), name, exe_file, cmdline)
    } else if interpreted("node"@, node_grammar(), name, exe_file, cmdline) is Some {
        interpreted("node"@, node_grammar(), name, exe_file, cmdline)
    } else {
        name
    }
}

/// The name under which a process with the given program file and
/// arguments is shown, and what it was made from: its plain name, and what
/// `shown_name` makes of it, with the file name of the program file.
pub fn ps_name(exe: Option<PathBuf>, cmdline: Option<Vec<String>>) -> (r: (
    Option<String>,
    ProcNamePre,
))
    ensures
        r.1.exe == exe,
        r.1.cmdline == cmdline,
        text_of(r.1.name) == plain_name(exe_file(exe), arguments(cmdline)),
        text_of(r.0) == shown_name(text_of(r.1.name), exe_file(exe), arguments(cmdline)),
{
    let exe_file = match &exe {
        Some(path) => file_name(path),
        None => None,
    };
    let name = match &exe_file {
        Some(n) => Some(n.clone()),
        None => match &cmdline {
            Some(args) => if args.len() > 0 {
                assert(texts(args@)[0] == args@[0]@);
                Some(args[0].clone())
            } else {
                None
            },
            None => None,
        },
    };
    assert(text_of(name) == plain_name(text_of(exe_file), arguments(cmdline)));
    let shown = if let Some(python) = py_name(&name, &exe_file, &cmdline) {
        Some(python)
    } else if let Some(lua) = lua_name(&name, &exe_file, &cmdline) {
        Some(lua)
    } else if let Some(java) = java_name(&name, &exe_file, &cmdline) {
        Some(java)
    } else if let Some(node) = node_name(&name, &exe_file, &cmdline) {
        Some(node)
    } else {
        match &name {
            Some(n) => Some(n.clone()),
            None => None,
        }
    };
    assert(text_of(shown) == shown_name(text_of(name), text_of(exe_file), arguments(cmdline)));
    (shown, ProcNamePre { exe, cmdline, name })
}

/// What a process gets out of a pool when it claims the sockets with the
/// given inodes, in order, and what is left of the pool. An inode that is
/// not in the pool, because there never was such a socket or because it was
/// claimed before, gets nothing.
pub open spec fn claimed(pool: Seq<SockInfo>, inodes: Seq<Ino>) -> (Seq<SockInfo>, Seq<SockInfo>)
    decreases inodes.len(),
{
    if inodes.len() == 0 {
        (Seq::empty(), pool)
    } else {
        let before = claimed(pool, inodes.drop_last());
        match find(before.1, inodes.last()) {
            Some(i) => (before.0.push(before.1[i]), before.1.remove(i)),
            None => before,
        }
    }
}

/// The name under which the owner of a process is shown: the name of the
/// user, if one is known and it holds in the user namespace of the process;
/// else the number of the user.
pub open spec fn owner_text(uid: u32, user_name: Option<String>, same_user_ns: bool) -> Seq<char> {
    if user_name is Some && same_user_ns {
        user_name->0@
    } else {
        decimal_text(uid as nat)
    }
}

impl ProcDesc {
    /// Describes a process and lets it claim the sockets that it holds.
    ///
    /// `user_name` is the name that this host has for the user `uid`,
    /// `same_user_ns` says whether the process lives in the user namespace
    /// of the observer, and `inodes` are the sockets among its open files.
    pub fn inspect_ps(
        pid: Pid,
        uid: u32,
        exe: Option<PathBuf>,
        cmdline: Option<Vec<String>>,
        user_name: Option<String>,
        same_user_ns: bool,
        inodes: &Vec<Ino>,
        socks: &mut Registry,
    ) -> (r: ProcDesc)
        ensures
            r.pid == pid,
            r.uid == uid,
            r.user@ == owner_text(uid, user_name, same_user_ns),
            r.info.exe == exe,
            r.info.cmdline == cmdline,
            text_of(r.info.name) == plain_name(exe_file(exe), arguments(cmdline)),
            text_of(r.name) == shown_name(text_of(r.info.name), exe_file(exe), arguments(cmdline)),
            (r.sockets@, final(socks).pool()) == claimed(old(socks).pool(), inodes@),
            final(socks).buckets() == old(socks).buckets(),
    {
        let user = match (&user_name, same_user_ns) {
            (Some(name), true) => name.clone(),
            _ => decimal(uid as u64),
        };
        let mut sockets: Vec<SockInfo> = Vec::new();
        let mut i: usize = 0;
        assert(inodes@.take(0) =~= Seq::<Ino>::empty());
        while i < inodes.len()
            invariant
                i <= inodes.len(),
                socks.buckets() == old(socks).buckets(),
                (sockets@, socks.pool()) == claimed(old(socks).pool(), inodes@.take(i as int)),
            decreases inodes.len() - i,
        {
            assert(inodes@.take(i + 1).drop_last() =~= inodes@.take(i as int));
            match socks.claim(inodes[i]) {
                Some(s) => {
                    sockets.push(s);
                },
                None => {},
            }
            i = i + 1;
        }
        assert(inodes@.take(inodes.len() as int) =~= inodes@);
        let (name, info) = ps_name(exe, cmdline);
        ProcDesc { pid, user, uid, name, info, sockets }
    }

    /// The numbers by which the sockets of the process are put in order,
    /// for each socket in turn. Processes are shown in the order of these,
    /// then of their number, then of their name.
    pub fn socket_keys(&self) -> (r: Vec<(u16, u8, u8, u128, u8)>)
        ensures
            r@ == self.sockets@.map_values(|s: SockInfo| s.sort_key_of()),
    {
        let mut out: Vec<(u16, u8, u8, u128, u8)> = Vec::new();
        let mut i: usize = 0;
        assert(out@ =~= self.sockets@.take(0).map_values(|s: SockInfo| s.sort_key_of()));
        while i < self.sockets.len()
            invariant
                i <= self.sockets.len(),
                out@ == self.sockets@.take(i as int).map_values(|s: SockInfo| s.sort_key_of()),
            decreases self.sockets.len() - i,
        {
            out.push(self.sockets[i].sort_key());
            i = i + 1;
            assert(out@ =~= self.sockets@.take(i as int).map_values(
                |s: SockInfo| s.sort_key_of(),
            ));
        }
        assert(self.sockets@.take(self.sockets.len() as int) =~= self.sockets@);
        out
    }
}

} // verus!
