use vstd::prelude::*;
use vstd::string::StrSliceExecFns;
use vstd::utf8::encode_utf8;

use crate::args::ArgMap;
use crate::strings::concat_str;
use crate::strings::spec_ends_with;
use crate::strings::str_ends_with;
use crate::strings::str_eq;

verus! {

/// How running a preprocessor can go wrong. `NoProcessor` is not a fault:
/// it tells the caller that no registered binding applies, so the file is to
/// be served as it is.
#[derive(PartialEq, Eq, Structural, Debug)]
pub enum PreprocessorErr {
    NoProcessor,
    ProcessorFailed,
    FileError,
}

/// The mathematical content of one preprocessor binding.
pub ghost struct PreprocessorView {
    pub extension: Seq<char>,
    pub command: Seq<char>,
    pub method: Seq<char>,
    pub argpass: Seq<char>,
    pub priority: u16,
    pub strict_error: u8,
}

/// One binding of a file-extension suffix to an external command, with its
/// input-delivery method, argument encoding, priority and strict-error flag.
/// Immutable after construction.
pub struct Preprocessor {
    extension: String,
    command: String,
    method: String,
    argpass: String,
    priority: u16,
    strict_error: u8,
}

impl View for Preprocessor {
    type V = PreprocessorView;

    closed spec fn view(&self) -> PreprocessorView {
        PreprocessorView {
            extension: self.extension@,
            command: self.command@,
            method: self.method@,
            argpass: self.argpass@,
            priority: self.priority,
            strict_error: self.strict_error,
        }
    }
}

/// What one run of an external command left behind: the captured bytes of
/// its standard output and standard error.
pub struct RunCapture {
    pub stdout: Vec<u8>,
    pub stderr: Vec<u8>,
}

/// What `String::from_utf8_lossy` makes of a byte sequence: a function of
/// the bytes alone.
pub uninterp spec fn lossy_of(b: Seq<u8>) -> Seq<char>;

/// Relies on String::from_utf8_lossy: decodes bytes permissively, replacing
/// invalid sequences and never failing; an empty input gives an empty string.
#[verifier::external_body]
pub(crate) fn lossy_string(b: &[u8]) -> (r: String)
    ensures
        r@ == lossy_of(b@),
        b@.len() == 0 ==> r@.len() == 0,
{
    String::from_utf8_lossy(b).into_owned()
}

/// Relies on subprocess::Exec::shell, Exec::stdin and Exec::capture: runs the
/// line through the operating system shell with `input` on its standard
/// input, waits for it, and captures the bytes of its standard output and
/// standard error; `None` when the process could not be started or
/// communicated with. Nothing is promised of the captured bytes: they depend
/// on the machine and the command.
#[verifier::external_body]
fn run_shell(line: String, input: Vec<u8>) -> (r: Option<RunCapture>)
{
    match subprocess::Exec::shell(line).stdin(input).capture() {
        Ok(c) => Some(RunCapture { stdout: c.stdout, stderr: c.stderr }),
        Err(_) => None,
    }
}

/// Relies on std::path::Path::is_file: whether the path names an existing
/// regular file right now; nothing is promised of the result, since the
/// filesystem can change between any two calls.
#[verifier::external_body]
pub(crate) fn probe_is_file(path: &String) -> bool {
    std::path::Path::new(path.as_str()).is_file()
}

/// Query arguments serialized under a pair separator `a` and an entry
/// separator `s`: `key a value s` for each entry, in map order.
pub open spec fn spec_encode_args(m: Seq<(Seq<char>, Seq<char>)>, a: char, s: char) -> Seq<char>
    decreases m.len(),
{
    if m.len() == 0 {
        Seq::empty()
    } else {
        spec_encode_args(m.drop_last(), a, s) + m.last().0 + seq![a] + m.last().1 + seq![s]
    }
}

/// The serialized arguments of a binding: present exactly when `argpass`
/// holds the two separator characters; anything else means no serialization.
pub open spec fn spec_serialized_args(
    p: PreprocessorView,
    args: Seq<(Seq<char>, Seq<char>)>,
) -> Seq<char> {
    if p.argpass.len() == 2 {
        spec_encode_args(args, p.argpass[0], p.argpass[1])
    } else {
        Seq::empty()
    }
}

/// The shell line and standard-input bytes of one run.
pub ghost struct Invocation {
    pub line: Seq<char>,
    pub stdin: Seq<u8>,
}

/// How a binding turns one file and its query arguments into an invocation.
/// The `file` method puts the path and the serialized arguments on the shell
/// line and the serialized arguments on standard input; `pipe` puts the
/// file's bytes alone on standard input; any other method puts the file's
/// bytes followed by the serialized arguments there, so both are delivered
/// on the one stream without ambiguity.
pub open spec fn spec_invocation(
    p: PreprocessorView,
    path: Seq<char>,
    file: Seq<u8>,
    args: Seq<(Seq<char>, Seq<char>)>,
) -> Invocation {
    let ser = spec_serialized_args(p, args);
    if p.method == "file"@ {
        Invocation {
            line: p.command + " "@ + path + " "@ + ser,
            stdin: encode_utf8(ser),
        }
    } else if p.method == "pipe"@ {
        Invocation { line: p.command, stdin: file }
    } else {
        Invocation { line: p.command, stdin: file + encode_utf8(ser) }
    }
}

impl Preprocessor {
    pub fn new(
        extension: String,
        command: String,
        method: String,
        argpass: String,
        priority: u16,
        strict_error: u8,
    ) -> (r: Preprocessor)
        ensures
            r@ == (PreprocessorView {
                extension: extension@,
                command: command@,
                method: method@,
                argpass: argpass@,
                priority: priority,
                strict_error: strict_error,
            }),
    {
        Preprocessor { extension, command, method, priority, argpass, strict_error }
    }

    fn priority(&self) -> (r: u16)
        ensures
            r == self@.priority,
    {
        self.priority
    }

    fn extension_str(&self) -> (r: &str)
        ensures
            r@ == self@.extension,
    {
        self.extension.as_str()
    }

    /// True exactly when this binding's extension ends the given path.
    pub fn does_apply(&self, file_path: String) -> (b: bool)
        ensures
            b == spec_ends_with(file_path@, self@.extension),
    {
        str_ends_with(file_path.as_str(), self.extension.as_str())
    }

    /// Serializes the query arguments under this binding's two separator
    /// characters.
    pub fn arg_parse(&self, args: &ArgMap) -> (r: String)
        requires
            self@.argpass.len() >= 2,
        ensures
            r@ == spec_encode_args(args@, self@.argpass[0], self@.argpass[1]),
    {
        let a_str = self.argpass.as_str().substring_char(0, 1);
        let s_str = self.argpass.as_str().substring_char(1, 2);
        proof {
            assert(a_str@ =~= seq![self@.argpass[0]]);
            assert(s_str@ =~= seq![self@.argpass[1]]);
        }
        let n = args.len();
        let mut r = String::new();
        let mut i: usize = 0;
        while i < n
            invariant
                n == args@.len(),
                i <= n,
                a_str@ == seq![self@.argpass[0]],
                s_str@ == seq![self@.argpass[1]],
                r@ == spec_encode_args(
                    args@.subrange(0, i as int),
                    self@.argpass[0],
                    self@.argpass[1],
                ),
            decreases n - i,
        {
            r.append(args.key_at(i).as_str());
            r.append(a_str);
            r.append(args.val_at(i).as_str());
            r.append(s_str);
            proof {
                let pre = args@.subrange(0, i + 1);
                assert(pre.drop_last() =~= args@.subrange(0, i as int));
                assert(pre.last() == args@[i as int]);
            }
            i += 1;
        }
        proof {
            assert(args@.subrange(0, n as int) =~= args@);
        }
        r
    }

    /// The exact shell line and standard-input bytes this binding hands to
    /// the shell for one file, as `spec_invocation` says.
    pub fn build_invocation(&self, file_path: &String, file: &Vec<u8>, args: &ArgMap) -> (r: (
        String,
        Vec<u8>,
    ))
        ensures
            r.0@ == spec_invocation(self@, file_path@, file@, args@).line,
            r.1@ == spec_invocation(self@, file_path@, file@, args@).stdin,
    {
        let ser: String = if self.argpass.as_str().unicode_len() == 2 {
            self.arg_parse(args)
        } else {
            String::new()
        };
        if str_eq(self.method.as_str(), "file") {
            let line0 = concat_str(self.command.as_str(), " ");
            let line1 = concat_str(line0.as_str(), file_path.as_str());
            let line2 = concat_str(line1.as_str(), " ");
            let line = concat_str(line2.as_str(), ser.as_str());
            let input = ser.as_str().as_bytes_vec();
            (line, input)
        } else if str_eq(self.method.as_str(), "pipe") {
            (self.command.clone(), file.clone())
        } else {
            let mut input = file.clone();
            let mut tail = ser.as_str().as_bytes_vec();
            input.append(&mut tail);
            (self.command.clone(), input)
        }
    }

    /// Reads one captured run: standard-error output under a strict policy is
    /// a failure even when the process exited successfully; otherwise the
    /// captured standard output is the (permissively decoded) result.
    pub fn interpret_output(&self, cap: &RunCapture) -> (r: Result<String, PreprocessorErr>)
        ensures
            (cap.stderr@.len() > 0 && self@.strict_error == 1) ==> r == Err::<
                String,
                PreprocessorErr,
            >(PreprocessorErr::ProcessorFailed),
            !(cap.stderr@.len() > 0 && self@.strict_error == 1) ==> (r matches Ok(s) && s@
                == lossy_of(cap.stdout@)),
    {
        if cap.stderr.len() > 0 && self.strict_error == 1 {
            Err(PreprocessorErr::ProcessorFailed)
        } else {
            Ok(lossy_string(cap.stdout.as_slice()))
        }
    }

    /// Runs this binding against one file. The file's bytes come from the
    /// caller, who opened it: `None` means the open failed and yields
    /// `FileError`. A run that could not start yields `ProcessorFailed`, and
    /// the captured output is read as `interpret_output` says. `NoProcessor`
    /// never comes from here.
    pub fn process(&self, file_path: String, file: &Option<Vec<u8>>, args: &ArgMap) -> (r: Result<
        String,
        PreprocessorErr,
    >)
        ensures
            (r == Err::<String, PreprocessorErr>(PreprocessorErr::FileError)) <==> (file is None),
            r != Err::<String, PreprocessorErr>(PreprocessorErr::NoProcessor),
    {
        match file {
            None => Err(PreprocessorErr::FileError),
            Some(bytes) => {
                let (line, input) = self.build_invocation(&file_path, bytes, args);
                match run_shell(line, input) {
                    None => Err(PreprocessorErr::ProcessorFailed),
                    Some(cap) => self.interpret_output(&cap),
                }
            },
        }
    }
}

/// True when the sequence never puts a higher priority before a lower one.
pub open spec fn sorted_by_priority(s: Seq<PreprocessorView>) -> bool {
    forall|i: int, j: int| 0 <= i < j < s.len() ==> s[i].priority <= s[j].priority
}

/// Where a binding of priority `p` is inserted: directly after every binding
/// whose priority is at most `p`, so equal priorities keep registration
/// order.
pub open spec fn spec_insert_pos(s: Seq<PreprocessorView>, p: u16) -> int
    decreases s.len(),
{
    if s.len() == 0 {
        0
    } else if s[0].priority > p {
        0
    } else {
        1 + spec_insert_pos(s.drop_first(), p)
    }
}

/// Law: the insertion point of a new binding lies after every binding with
/// an equal or lower priority and before the first strictly higher one; with
/// `add`'s contract this is the stable-ordering law for registration.
pub proof fn lemma_insert_pos_is_stable(s: Seq<PreprocessorView>, p: u16)
    ensures
        0 <= spec_insert_pos(s, p) <= s.len(),
        forall|k: int| 0 <= k < spec_insert_pos(s, p) ==> s[k].priority <= p,
        spec_insert_pos(s, p) < s.len() ==> s[spec_insert_pos(s, p)].priority > p,
    decreases s.len(),
{
    if s.len() == 0 {
    } else if s[0].priority > p {
    } else {
        lemma_insert_pos_is_stable(s.drop_first(), p);
        assert(forall|k: int| 1 <= k < spec_insert_pos(s, p) ==> s[k]
            == s.drop_first()[k - 1]);
    }
}

/// Inserting at `spec_insert_pos` keeps the registry sorted.
pub proof fn lemma_insert_keeps_sorted(s: Seq<PreprocessorView>, pv: PreprocessorView)
    requires
        sorted_by_priority(s),
    ensures
        sorted_by_priority(s.insert(spec_insert_pos(s, pv.priority), pv)),
{
    lemma_insert_pos_is_stable(s, pv.priority);
    let pos = spec_insert_pos(s, pv.priority);
    let t = s.insert(pos, pv);
    assert forall|i: int, j: int| 0 <= i < j < t.len() implies t[i].priority
        <= t[j].priority by {
        if i < pos && j < pos {
            assert(t[i] == s[i] && t[j] == s[j]);
        } else if i < pos && j == pos {
            assert(t[i] == s[i]);
        } else if i < pos && j > pos {
            assert(t[i] == s[i] && t[j] == s[j - 1]);
            if j - 1 >= pos {
                assert(s[i].priority <= pv.priority);
                if j - 1 == pos {
                    if pos < s.len() {
                        assert(s[pos].priority > pv.priority);
                    }
                }
            }
        } else if i == pos && j > pos {
            assert(t[j] == s[j - 1]);
            assert(s[j - 1].priority > pv.priority);
        } else {
            assert(t[i] == s[i - 1] && t[j] == s[j - 1]);
        }
    }
}

/// Law: registering a new binding never reorders the bindings already
/// registered — each keeps its place or shifts one slot right — so two
/// bindings of equal priority stay in registration order forever.
pub proof fn lemma_registration_order_preserved(
    s: Seq<PreprocessorView>,
    pv: PreprocessorView,
    i: int,
    j: int,
)
    requires
        0 <= i < j < s.len(),
    ensures
        ({
            let pos = spec_insert_pos(s, pv.priority);
            let t = s.insert(pos, pv);
            let i2 = if i < pos {
                i
            } else {
                i + 1
            };
            let j2 = if j < pos {
                j
            } else {
                j + 1
            };
            i2 < j2 && t[i2] == s[i] && t[j2] == s[j]
        }),
{
    lemma_insert_pos_is_stable(s, pv.priority);
}

/// Law: in a sorted registry, a binding with a strictly lower priority
/// stands strictly earlier, so it is tried first both when probing
/// generatable files and when dispatching `process`, whatever the
/// registration order was.
pub proof fn lemma_lower_priority_tried_first(s: Seq<PreprocessorView>, i: int, j: int)
    requires
        sorted_by_priority(s),
        0 <= i < s.len(),
        0 <= j < s.len(),
        s[i].priority < s[j].priority,
    ensures
        i < j,
{
    if j <= i {
        if j < i {
            assert(s[j].priority <= s[i].priority);
        }
    }
}

/// Index of the first `true` in a probe vector, or its length.
pub open spec fn spec_first_true(s: Seq<bool>) -> int
    decreases s.len(),
{
    if s.len() == 0 {
        0
    } else if s[0] {
        0
    } else {
        1 + spec_first_true(s.drop_first())
    }
}

pub proof fn lemma_first_true_bounds(s: Seq<bool>)
    ensures
        0 <= spec_first_true(s) <= s.len(),
    decreases s.len(),
{
    if s.len() == 0 {
    } else if s[0] {
    } else {
        lemma_first_true_bounds(s.drop_first());
    }
}

pub proof fn lemma_first_true(s: Seq<bool>, i: int)
    requires
        0 <= i <= s.len(),
        forall|k: int| 0 <= k < i ==> !s[k],
        i < s.len() ==> s[i],
    ensures
        spec_first_true(s) == i,
    decreases s.len(),
{
    if s.len() == 0 {
    } else if s[0] {
        assert(i == 0);
    } else {
        assert(forall|k: int| 0 <= k < i - 1 ==> s.drop_first()[k] == s[k + 1]);
        lemma_first_true(s.drop_first(), i - 1);
    }
}

/// Index of the first binding whose extension ends `path`, or the length.
pub open spec fn spec_first_applicable(s: Seq<PreprocessorView>, path: Seq<char>) -> int
    decreases s.len(),
{
    if s.len() == 0 {
        0
    } else if spec_ends_with(path, s[0].extension) {
        0
    } else {
        1 + spec_first_applicable(s.drop_first(), path)
    }
}

pub proof fn lemma_first_applicable(s: Seq<PreprocessorView>, path: Seq<char>, i: int)
    requires
        0 <= i <= s.len(),
        forall|k: int| 0 <= k < i ==> !spec_ends_with(path, s[k].extension),
        i < s.len() ==> spec_ends_with(path, s[i].extension),
    ensures
        spec_first_applicable(s, path) == i,
    decreases s.len(),
{
    if s.len() == 0 {
    } else if spec_ends_with(path, s[0].extension) {
        assert(i == 0);
    } else {
        assert(forall|k: int| 0 <= k < i - 1 ==> s.drop_first()[k] == s[k + 1]);
        lemma_first_applicable(s.drop_first(), path, i - 1);
    }
}

/// The ordered registry of preprocessor bindings: always sorted by ascending
/// priority, with equal priorities in registration order.
pub struct PreprocessorList {
    processors: Vec<Preprocessor>,
}

impl View for PreprocessorList {
    type V = Seq<PreprocessorView>;

    closed spec fn view(&self) -> Seq<PreprocessorView> {
        self.processors@.map_values(|p: Preprocessor| p@)
    }
}

impl PreprocessorList {
    pub fn new() -> (r: PreprocessorList)
        ensures
            r@ == Seq::<PreprocessorView>::empty(),
            sorted_by_priority(r@),
    {
        let processors = Vec::new();
        let r = PreprocessorList { processors };
        proof {
            assert(r@ =~= Seq::<PreprocessorView>::empty());
        }
        r
    }

    /// Registers one binding, keeping the registry stable-sorted: the new
    /// binding goes directly after every binding with an equal or lower
    /// priority.
    pub fn add(
        &mut self,
        extension: String,
        command: String,
        method: String,
        argpass: String,
        priority: u16,
        strict_error: u8,
    )
        ensures
            final(self)@ == old(self)@.insert(
                spec_insert_pos(old(self)@, priority),
                PreprocessorView {
                    extension: extension@,
                    command: command@,
                    method: method@,
                    argpass: argpass@,
                    priority: priority,
                    strict_error: strict_error,
                },
            ),
            sorted_by_priority(old(self)@) ==> sorted_by_priority(final(self)@),
    {
        let ghost pv = PreprocessorView {
            extension: extension@,
            command: command@,
            method: method@,
            argpass: argpass@,
            priority: priority,
            strict_error: strict_error,
        };
        let processor = Preprocessor::new(extension, command, method, argpass, priority,
            strict_error);
        let pos = self.insert_position(priority);
        self.processors.insert(pos, processor);
        proof {
            assert(final(self)@ =~= old(self)@.insert(pos as int, pv));
            if sorted_by_priority(old(self)@) {
                lemma_insert_keeps_sorted(old(self)@, pv);
            }
        }
    }

    /// Where a binding of the given priority is to be inserted.
    fn insert_position(&self, priority: u16) -> (pos: usize)
        ensures
            pos as int == spec_insert_pos(self@, priority),
            pos <= self@.len(),
    {
        let n = self.processors.len();
        let mut i: usize = 0;
        while i < n
            invariant
                n == self@.len(),
                i <= n,
                forall|k: int| 0 <= k < i ==> self@[k].priority <= priority,
            decreases n - i,
        {
            proof {
                assert(self@[i as int] == self.processors@.map_values(
                    |p: Preprocessor| p@,
                )[i as int]);
            }
            if self.processors[i].priority() > priority {
                proof {
                    lemma_spec_insert_pos_first(self@, priority, i as int);
                }
                return i;
            }
            i += 1;
        }
        proof {
            lemma_spec_insert_pos_first(self@, priority, n as int);
        }
        n
    }

    /// The position of the first binding whose extension ends `file_path`,
    /// scanning in priority order; `None` when no binding applies.
    pub fn find_applicable(&self, file_path: &String) -> (r: Option<usize>)
        ensures
            ({
                let fi = spec_first_applicable(self@, file_path@);
                match r {
                    Some(i) => i == fi && fi < self@.len(),
                    None => fi == self@.len(),
                }
            }),
    {
        let n = self.processors.len();
        let mut i: usize = 0;
        while i < n
            invariant
                n == self@.len(),
                i <= n,
                forall|k: int| 0 <= k < i ==> !spec_ends_with(
                    file_path@,
                    #[trigger] self@[k].extension,
                ),
            decreases n - i,
        {
            proof {
                assert(self@[i as int] == self.processors@.map_values(
                    |p: Preprocessor| p@,
                )[i as int]);
            }
            if self.processors[i].does_apply(file_path.clone()) {
                proof {
                    lemma_first_applicable(self@, file_path@, i as int);
                }
                return Some(i);
            }
            i += 1;
        }
        proof {
            lemma_first_applicable(self@, file_path@, n as int);
        }
        None
    }

    /// Which extension makes a generatable file, given one probe result per
    /// binding: the first probed-present `base + extension`, scanning in
    /// priority order; `None` when none was present.
    pub fn first_present(&self, file_path: &String, present: &Vec<bool>) -> (r: Option<String>)
        requires
            present@.len() == self@.len(),
        ensures
            ({
                let fi = spec_first_true(present@);
                if fi < present@.len() {
                    r matches Some(p) && p@ == file_path@ + self@[fi].extension
                } else {
                    r is None
                }
            }),
    {
        let n = self.processors.len();
        let mut i: usize = 0;
        while i < n
            invariant
                n == self@.len(),
                n == present@.len(),
                i <= n,
                forall|k: int| 0 <= k < i ==> !present@[k],
            decreases n - i,
        {
            if present[i] {
                proof {
                    lemma_first_true(present@, i as int);
                    assert(self@[i as int] == self.processors@.map_values(
                        |p: Preprocessor| p@,
                    )[i as int]);
                }
                let p = concat_str(file_path.as_str(), self.processors[i].extension_str());
                return Some(p);
            }
            i += 1;
        }
        proof {
            lemma_first_true(present@, n as int);
        }
        None
    }

    /// Probes the disk for each binding's `base + extension` and returns the
    /// first present one, in priority order. The probe results come from the
    /// filesystem of the moment, so only the shape of the answer is promised
    /// here; `first_present` carries the exact scanning law.
    pub fn check_file(&self, file_path: &String) -> (r: Option<String>)
        ensures
            r matches Some(p) ==> exists|i: int|
                0 <= i < self@.len() && p@ == file_path@ + #[trigger] self@[i].extension,
    {
        let n = self.processors.len();
        let mut present: Vec<bool> = Vec::new();
        let mut i: usize = 0;
        while i < n
            invariant
                n == self@.len(),
                i <= n,
                present@.len() == i,
            decreases n - i,
        {
            proof {
                assert(self@[i as int] == self.processors@.map_values(
                    |p: Preprocessor| p@,
                )[i as int]);
            }
            let candidate = concat_str(file_path.as_str(), self.processors[i].extension_str());
            present.push(probe_is_file(&candidate));
            i += 1;
        }
        let r = self.first_present(file_path, &present);
        proof {
            let fi = spec_first_true(present@);
            lemma_first_true_bounds(present@);
            if fi < present@.len() {
                assert((r->Some_0)@ == file_path@ + self@[fi].extension);
                assert(exists|j: int|
                    0 <= j < self@.len() && (r->Some_0)@ == file_path@
                        + #[trigger] self@[j].extension);
            }
        }
        r
    }

    /// Runs the first applicable binding against the file, or reports
    /// `NoProcessor` when none applies; `FileError` comes exactly when a
    /// binding applies and the caller could not open the file.
    pub fn process(&self, file_path: String, file: &Option<Vec<u8>>, args: &ArgMap) -> (r: Result<
        String,
        PreprocessorErr,
    >)
        ensures
            (r == Err::<String, PreprocessorErr>(PreprocessorErr::NoProcessor)) <==> (
            spec_first_applicable(self@, file_path@) == self@.len()),
            spec_first_applicable(self@, file_path@) < self@.len() ==> ((r == Err::<
                String,
                PreprocessorErr,
            >(PreprocessorErr::FileError)) <==> (file is None)),
    {
        match self.find_applicable(&file_path) {
            None => Err(PreprocessorErr::NoProcessor),
            Some(i) => {
                proof {
                    assert(self@[i as int] == self.processors@.map_values(
                        |p: Preprocessor| p@,
                    )[i as int]);
                }
                self.processors[i].process(file_path, file, args)
            },
        }
    }
}

/// `spec_insert_pos` is characterized by: every binding before it has
/// priority at most `p`, and the binding at it (if any) has a higher one.
pub proof fn lemma_spec_insert_pos_first(s: Seq<PreprocessorView>, p: u16, i: int)
    requires
        0 <= i <= s.len(),
        forall|k: int| 0 <= k < i ==> s[k].priority <= p,
        i < s.len() ==> s[i].priority > p,
    ensures
        spec_insert_pos(s, p) == i,
    decreases s.len(),
{
    if s.len() == 0 {
    } else if s[0].priority > p {
        assert(i == 0);
    } else {
        assert(forall|k: int| 0 <= k < i - 1 ==> s.drop_first()[k] == s[k + 1]);
        lemma_spec_insert_pos_first(s.drop_first(), p, i - 1);
    }
}

} // verus!
