//! The architecture of a prefix and its detection from registry text.
//!
//! A registry file names the architecture on a line that holds the marker
//! `#arch=` followed by `win32` or `win64` and nothing else. Files are
//! examined in a fixed order and the first such line decides.

use crate::error::PrefixError;
use crate::text::str_eq;
use vstd::prelude::*;
use vstd::slice::*;
use vstd::utf8::valid_utf8;

verus! {

/// Processor architecture that a prefix is configured for.
#[derive(Clone, Copy, Debug, PartialEq, Eq, Structural)]
pub enum PrefixArch {
    /// 32-bit guest binaries only.
    X86,
    /// 64-bit guest binaries.
    X86_64,
}

impl PrefixArch {
    /// The value the compatibility layer expects in its architecture flag.
    pub open spec fn wine_name_spec(self) -> Seq<char> {
        match self {
            PrefixArch::X86 => "win32"@,
            PrefixArch::X86_64 => "win64"@,
        }
    }

    /// The value the compatibility layer expects in its architecture flag:
    /// `win32` or `win64`.
    pub fn wine_name(self) -> (s: &'static str)
        ensures
            s@ == self.wine_name_spec(),
    {
        match self {
            PrefixArch::X86 => "win32",
            PrefixArch::X86_64 => "win64",
        }
    }

    /// The architecture that `text` names by the word the compatibility
    /// layer uses for it.
    pub open spec fn parse_spec(text: Seq<char>) -> Option<PrefixArch> {
        if text == PrefixArch::X86.wine_name_spec() {
            Some(PrefixArch::X86)
        } else if text == PrefixArch::X86_64.wine_name_spec() {
            Some(PrefixArch::X86_64)
        } else {
            None
        }
    }

    /// Reads an architecture off the word the compatibility layer uses for
    /// it: `win32` or `win64`.
    pub fn parse(text: &str) -> (arch: Option<PrefixArch>)
        ensures
            arch == PrefixArch::parse_spec(text@),
    {
        if str_eq(text, "win32") {
            Some(PrefixArch::X86)
        } else if str_eq(text, "win64") {
            Some(PrefixArch::X86_64)
        } else {
            None
        }
    }
}

/// The architecture of a new prefix: the one that the given word names,
/// or the default when no word is given or the word names none.
pub fn arch_for_new_prefix(word: Option<&str>) -> (arch: PrefixArch)
    ensures
        arch == match word {
            Some(text) => match PrefixArch::parse_spec(text@) {
                Some(named) => named,
                None => PrefixArch::X86_64,
            },
            None => PrefixArch::X86_64,
        },
{
    match word {
        Some(text) => match PrefixArch::parse(text) {
            Some(named) => named,
            None => PrefixArch::X86_64,
        },
        None => PrefixArch::X86_64,
    }
}

impl Default for PrefixArch {
    /// A prefix is 64-bit unless something says otherwise.
    fn default() -> (arch: PrefixArch)
        ensures
            arch == PrefixArch::X86_64,
    {
        PrefixArch::X86_64
    }
}

/// The line feed.
pub const LINE_FEED: u8 = 10;

/// The carriage return.
pub const CARRIAGE_RETURN: u8 = 13;

/// The bytes `#arch=`.
pub open spec fn marker() -> Seq<u8> {
    seq![('#' as u8), ('a' as u8), ('r' as u8), ('c' as u8), ('h' as u8), ('=' as u8)]
}

/// The bytes `win32`.
pub open spec fn win32() -> Seq<u8> {
    seq![('w' as u8), ('i' as u8), ('n' as u8), ('3' as u8), ('2' as u8)]
}

/// The bytes `win64`.
pub open spec fn win64() -> Seq<u8> {
    seq![('w' as u8), ('i' as u8), ('n' as u8), ('6' as u8), ('4' as u8)]
}

/// Whether `pattern` stands in `bytes` at position `at`.
pub open spec fn stands_at(bytes: Seq<u8>, at: int, pattern: Seq<u8>) -> bool {
    0 <= at && at + pattern.len() <= bytes.len() && bytes.subrange(at, at + pattern.len())
        == pattern
}

/// Whether the first marker of `line` stands at position `at`.
pub open spec fn is_first_marker(line: Seq<u8>, at: int) -> bool {
    &&& stands_at(line, at, marker())
    &&& forall|j: int| 0 <= j < at ==> !stands_at(line, j, marker())
}

/// What follows the first marker of `line`, up to the end of the line.
pub open spec fn value_after_marker(line: Seq<u8>) -> Option<Seq<u8>> {
    if exists|at: int| is_first_marker(line, at) {
        let at = choose|at: int| is_first_marker(line, at);
        Some(line.skip(at + marker().len()))
    } else {
        None
    }
}

/// The architecture that a line names. The line must be well-formed UTF-8,
/// and what follows its first marker must be exactly `win32` or `win64`.
pub open spec fn line_arch(line: Seq<u8>) -> Option<PrefixArch> {
    match value_after_marker(line) {
        Some(value) => if !valid_utf8(line) {
            None
        } else if value == win32() {
            Some(PrefixArch::X86)
        } else if value == win64() {
            Some(PrefixArch::X86_64)
        } else {
            None
        },
        None => None,
    }
}

/// Whether the first line of `text` ends before position `end`: there is a
/// line feed at `end`, or the text ends there, and no line feed comes
/// earlier.
pub open spec fn ends_first_line(text: Seq<u8>, end: int) -> bool {
    &&& 0 <= end <= text.len()
    &&& end < text.len() ==> text[end] == LINE_FEED
    &&& forall|j: int| 0 <= j < end ==> text[j] != LINE_FEED
}

/// Where the first line of `text` ends.
pub open spec fn first_line_end(text: Seq<u8>) -> int {
    choose|end: int| ends_first_line(text, end)
}

/// A line as it stands before its line feed, without the carriage return
/// that may precede the line feed.
pub open spec fn without_cr(line: Seq<u8>) -> Seq<u8> {
    if line.len() > 0 && line.last() == CARRIAGE_RETURN {
        line.drop_last()
    } else {
        line
    }
}

/// The lines of a text. A line ends at a line feed, which is not part of
/// it, nor is a carriage return directly before the line feed. What follows
/// the last line feed is a line if it is not empty.
pub open spec fn lines(text: Seq<u8>) -> Seq<Seq<u8>>
    decreases text.len(),
{
    if text.len() == 0 {
        Seq::empty()
    } else {
        let end = first_line_end(text);
        if 0 <= end < text.len() {
            seq![without_cr(text.take(end))] + lines(text.skip(end + 1))
        } else {
            seq![text]
        }
    }
}

/// The architecture named by the first of `lines` that names one.
pub open spec fn first_arch(lines: Seq<Seq<u8>>) -> Option<PrefixArch>
    decreases lines.len(),
{
    if lines.len() == 0 {
        None
    } else {
        match line_arch(lines.first()) {
            Some(arch) => Some(arch),
            None => first_arch(lines.drop_first()),
        }
    }
}

/// The architecture that a registry text names.
pub open spec fn text_arch(text: Seq<u8>) -> Option<PrefixArch> {
    first_arch(lines(text))
}

/// `core::str::from_utf8`: whether the bytes are well-formed UTF-8.
#[verifier::external_body]
fn is_utf8(bytes: &[u8]) -> (ok: bool)
    ensures
        ok == valid_utf8(bytes@),
{
    core::str::from_utf8(bytes).is_ok()
}

fn marker_stands_at(line: &[u8], at: usize) -> (yes: bool)
    ensures
        yes == stands_at(line@, at as int, marker()),
{
    if line.len() < 6 || at > line.len() - 6 {
        return false;
    }
    let yes = line[at] == ('#' as u8) && line[at + 1] == ('a' as u8) && line[at + 2] == ('r' as u8)
        && line[at + 3] == ('c' as u8) && line[at + 4] == ('h' as u8) && line[at + 5] == (
        '=' as u8);
    proof {
        let part = line@.subrange(at as int, at + 6);
        if yes {
            assert(part =~= marker());
        } else {
            assert(part[0] == line@[at as int]);
            assert(part[1] == line@[at + 1]);
            assert(part[2] == line@[at + 2]);
            assert(part[3] == line@[at + 3]);
            assert(part[4] == line@[at + 4]);
            assert(part[5] == line@[at + 5]);
        }
    }
    yes
}

fn names_arch(value: &[u8]) -> (arch: Option<PrefixArch>)
    ensures
        arch == if value@ == win32() {
            Some(PrefixArch::X86)
        } else if value@ == win64() {
            Some(PrefixArch::X86_64)
        } else {
            None::<PrefixArch>
        },
{
    if value.len() != 5 {
        return None;
    }
    let starts = value[0] == ('w' as u8) && value[1] == ('i' as u8) && value[2] == ('n' as u8);
    if starts && value[3] == ('3' as u8) && value[4] == ('2' as u8) {
        proof {
            assert(value@ =~= win32());
        }
        Some(PrefixArch::X86)
    } else if starts && value[3] == ('6' as u8) && value[4] == ('4' as u8) {
        proof {
            assert(value@ =~= win64());
            assert(value@[3] != win32()[3]);
        }
        Some(PrefixArch::X86_64)
    } else {
        proof {
            if value@ == win32() {
                assert(value@[0] == win32()[0] && value@[1] == win32()[1] && value@[2] == win32()[2]
                    && value@[3] == win32()[3] && value@[4] == win32()[4]);
            }
            if value@ == win64() {
                assert(value@[0] == win64()[0] && value@[1] == win64()[1] && value@[2] == win64()[2]
                    && value@[3] == win64()[3] && value@[4] == win64()[4]);
            }
        }
        None
    }
}

/// The architecture that one line names, if it names one.
pub fn arch_of_line(line: &[u8]) -> (arch: Option<PrefixArch>)
    ensures
        arch == line_arch(line@),
{
    let mut at: usize = 0;
    while at < line.len()
        invariant
            at <= line.len(),
            forall|j: int| 0 <= j < at ==> !stands_at(line@, j, marker()),
        decreases line.len() - at,
    {
        if marker_stands_at(line, at) {
            proof {
                assert(is_first_marker(line@, at as int));
                let chosen = choose|i: int| is_first_marker(line@, i);
                assert(chosen == at);
            }
            let value = slice_subrange(line, at + 6, line.len());
            proof {
                assert(value@ =~= line@.skip(at + 6));
            }
            return match names_arch(value) {
                Some(arch) => if is_utf8(line) {
                    Some(arch)
                } else {
                    None
                },
                None => None,
            };
        }
        at += 1;
    }
    proof {
        assert forall|i: int| !is_first_marker(line@, i) by {
            if stands_at(line@, i, marker()) {
                assert(i < line@.len());
            }
        }
    }
    None
}

/// A text whose first line ends at `end` names what that line names, or
/// else what the text after that line names.
proof fn lemma_text_arch_unfold(text: Seq<u8>, end: int)
    requires
        text.len() > 0,
        ends_first_line(text, end),
    ensures
        first_line_end(text) == end,
        text_arch(text) == if end < text.len() {
            match line_arch(without_cr(text.take(end))) {
                Some(arch) => Some(arch),
                None => text_arch(text.skip(end + 1)),
            }
        } else {
            line_arch(text)
        },
{
    let chosen = first_line_end(text);
    assert(ends_first_line(text, chosen));
    if chosen < end {
        assert(text[chosen] != LINE_FEED);
    } else if end < chosen {
        assert(text[end] != LINE_FEED);
    }
    if end < text.len() {
        let line = without_cr(text.take(end));
        let after = lines(text.skip(end + 1));
        assert(lines(text) == seq![line] + after);
        assert((seq![line] + after).first() == line);
        assert((seq![line] + after).drop_first() =~= after);
    } else {
        assert(lines(text) == seq![text]);
        assert(seq![text].first() == text);
        assert(seq![text].drop_first() =~= Seq::<Seq<u8>>::empty());
        assert(first_arch(seq![text].drop_first()) == None::<PrefixArch>);
    }
}

/// The architecture that the text of one registry file names: that of the
/// first line, from the top, that names one.
pub fn extract_from_reg_file(contents: &[u8]) -> (arch: Option<PrefixArch>)
    ensures
        arch == text_arch(contents@),
{
    let n: usize = contents.len();
    let mut start: usize = 0;
    proof {
        assert(contents@.skip(0) =~= contents@);
    }
    while start < n
        invariant
            n == contents@.len(),
            start <= n,
            text_arch(contents@) == text_arch(contents@.skip(start as int)),
        decreases n - start,
    {
        let ghost rest = contents@.skip(start as int);
        let mut end: usize = start;
        while end < n && contents[end] != LINE_FEED
            invariant
                n == contents@.len(),
                start <= end <= n,
                forall|j: int| start <= j < end ==> contents@[j] != LINE_FEED,
            decreases n - end,
        {
            end += 1;
        }
        let stop: usize = if end < n && end > start && contents[end - 1] == CARRIAGE_RETURN {
            end - 1
        } else {
            end
        };
        let line = slice_subrange(contents, start, stop);
        proof {
            assert(ends_first_line(rest, end - start));
            lemma_text_arch_unfold(rest, end - start);
            if end < n {
                assert(line@ =~= without_cr(rest.take(end - start)));
                assert(rest.skip(end - start + 1) =~= contents@.skip(end + 1));
            } else {
                assert(line@ =~= rest);
                assert(contents@.skip(n as int).len() == 0);
            }
        }
        match arch_of_line(line) {
            Some(arch) => {
                return Some(arch);
            },
            None => {},
        }
        if end < n {
            start = end + 1;
        } else {
            start = n;
        }
    }
    None
}

/// The names of the registry files of a prefix, in the order in which they
/// are examined.
pub fn registry_files() -> (names: [&'static str; 3])
    ensures
        names[0]@ == "userdef.reg"@,
        names[1]@ == "user.reg"@,
        names[2]@ == "system.reg"@,
{
    ["userdef.reg", "user.reg", "system.reg"]
}

/// What a registry file names: nothing if it could not be opened.
pub open spec fn file_arch(file: Option<Seq<u8>>) -> Option<PrefixArch> {
    match file {
        Some(text) => text_arch(text),
        None => None,
    }
}

/// The architecture named by the first of `files` that names one.
pub open spec fn detected(files: Seq<Option<Seq<u8>>>) -> Option<PrefixArch>
    decreases files.len(),
{
    if files.len() == 0 {
        None
    } else {
        match file_arch(files.first()) {
            Some(arch) => Some(arch),
            None => detected(files.drop_first()),
        }
    }
}

/// The bytes of a file that may have failed to open.
pub open spec fn contents_view(contents: Option<&[u8]>) -> Option<Seq<u8>> {
    match contents {
        Some(bytes) => Some(bytes@),
        None => None,
    }
}

/// The state of a detection: how many files were examined, and what the
/// first file that names an architecture named.
pub struct DetectionView {
    pub examined: nat,
    pub found: Option<PrefixArch>,
}

/// The state after one more file came in. Once an architecture is found, or
/// all three files were examined, nothing changes.
pub open spec fn examine(state: DetectionView, file: Option<Seq<u8>>) -> DetectionView {
    if state.found is Some || state.examined >= 3 {
        state
    } else {
        DetectionView { examined: state.examined + 1, found: file_arch(file) }
    }
}

/// The result of a detection in a given state.
pub open spec fn detection_result(found: Option<PrefixArch>) -> Result<PrefixArch, PrefixError> {
    match found {
        Some(arch) => Ok(arch),
        None => Err(PrefixError::FailedToDetectArch),
    }
}

/// A detection driven from outside: the caller opens the file that
/// `next_file` names and hands its bytes to `feed`, until `next_file` has
/// nothing left. No file is asked for after one has named an architecture.
#[derive(Debug)]
pub struct ArchDetection {
    examined: u8,
    found: Option<PrefixArch>,
}

impl View for ArchDetection {
    type V = DetectionView;

    closed spec fn view(&self) -> DetectionView {
        DetectionView { examined: self.examined as nat, found: self.found }
    }
}

impl ArchDetection {
    /// A detection that has examined nothing yet.
    pub fn new() -> (detection: ArchDetection)
        ensures
            detection@ == (DetectionView { examined: 0, found: None }),
    {
        ArchDetection { examined: 0, found: None }
    }

    /// The registry file to examine next; `None` once an architecture is
    /// found or all files were examined.
    pub fn next_file(&self) -> (name: Option<&'static str>)
        ensures
            match name {
                Some(file) => self@.found is None && self@.examined < 3 && file@
                    == registry_file_name(self@.examined),
                None => self@.found is Some || self@.examined >= 3,
            },
    {
        if self.found.is_some() || self.examined >= 3 {
            None
        } else {
            let names = registry_files();
            Some(names[self.examined as usize])
        }
    }

    /// Takes in the bytes of the file that `next_file` named, or `None` if
    /// it could not be opened.
    pub fn feed(&mut self, contents: Option<&[u8]>)
        ensures
            final(self)@ == examine(old(self)@, contents_view(contents)),
    {
        if self.found.is_some() || self.examined >= 3 {
            return;
        }
        self.examined = self.examined + 1;
        self.found = match contents {
            Some(bytes) => extract_from_reg_file(bytes),
            None => None,
        };
    }

    /// The architecture found, or the failure to find one.
    pub fn result(&self) -> (outcome: Result<PrefixArch, PrefixError>)
        ensures
            outcome == detection_result(self@.found),
    {
        match self.found {
            Some(arch) => Ok(arch),
            None => Err(PrefixError::FailedToDetectArch),
        }
    }
}

/// The name of the registry file examined at a given place in the order.
pub open spec fn registry_file_name(place: nat) -> Seq<char> {
    if place == 0 {
        "userdef.reg"@
    } else if place == 1 {
        "user.reg"@
    } else {
        "system.reg"@
    }
}

/// Detects the architecture of a prefix from the bytes of `userdef.reg`,
/// `user.reg` and `system.reg`, examined in that order; `None` stands for a
/// file that could not be opened. Fails when no file names an architecture.
pub fn detect_arch(userdef: Option<&[u8]>, user: Option<&[u8]>, system: Option<&[u8]>) -> (outcome:
    Result<PrefixArch, PrefixError>)
    ensures
        outcome == detection_result(
            detected(seq![contents_view(userdef), contents_view(user), contents_view(system)]),
        ),
{
    let ghost files = seq![contents_view(userdef), contents_view(user), contents_view(system)];
    let mut detection = ArchDetection::new();
    detection.feed(userdef);
    detection.feed(user);
    detection.feed(system);
    proof {
        let two = files.drop_first();
        let one = two.drop_first();
        let none = one.drop_first();
        assert(files.first() == contents_view(userdef));
        assert(two.first() == contents_view(user));
        assert(one.first() == contents_view(system));
        assert(none.len() == 0);
        assert(detected(none) == None::<PrefixArch>);
        assert(detected(one) == file_arch(contents_view(system)));
        assert(detected(two) == match file_arch(contents_view(user)) {
            Some(arch) => Some(arch),
            None => detected(one),
        });
        assert(detected(files) == match file_arch(contents_view(userdef)) {
            Some(arch) => Some(arch),
            None => detected(two),
        });
        assert(detection@.found == detected(files));
    }
    detection.result()
}

/// All lines of the files that could be opened, in the order in which
/// detection examines them.
pub open spec fn all_lines(files: Seq<Option<Seq<u8>>>) -> Seq<Seq<u8>>
    decreases files.len(),
{
    if files.len() == 0 {
        Seq::empty()
    } else {
        let here = match files.first() {
            Some(text) => lines(text),
            None => Seq::empty(),
        };
        here + all_lines(files.drop_first())
    }
}

proof fn lemma_first_arch_concat(a: Seq<Seq<u8>>, b: Seq<Seq<u8>>)
    ensures
        first_arch(a + b) == match first_arch(a) {
            Some(arch) => Some(arch),
            None => first_arch(b),
        },
    decreases a.len(),
{
    if a.len() == 0 {
        assert(a + b =~= b);
    } else {
        assert((a + b).first() == a.first());
        assert((a + b).drop_first() =~= a.drop_first() + b);
        lemma_first_arch_concat(a.drop_first(), b);
    }
}

/// Detection over several files is detection over all their lines taken as
/// one text: file order first, line order within a file.
pub proof fn law_detected_is_first_line(files: Seq<Option<Seq<u8>>>)
    ensures
        detected(files) == first_arch(all_lines(files)),
    decreases files.len(),
{
    if files.len() > 0 {
        let here = match files.first() {
            Some(text) => lines(text),
            None => Seq::empty(),
        };
        law_detected_is_first_line(files.drop_first());
        lemma_first_arch_concat(here, all_lines(files.drop_first()));
    }
}

/// The first line that names an architecture decides.
pub proof fn law_first_match_wins(lines: Seq<Seq<u8>>, at: int)
    requires
        0 <= at < lines.len(),
        line_arch(lines[at]) is Some,
        forall|j: int| 0 <= j < at ==> line_arch(#[trigger] lines[j]) is None,
    ensures
        first_arch(lines) == line_arch(lines[at]),
    decreases lines.len(),
{
    if at > 0 {
        assert(line_arch(lines[0]) is None);
        assert forall|j: int| 0 <= j < at - 1 implies line_arch(
            #[trigger] lines.drop_first()[j],
        ) is None by {
            assert(lines.drop_first()[j] == lines[j + 1]);
        }
        assert(lines.drop_first()[at - 1] == lines[at]);
        law_first_match_wins(lines.drop_first(), at - 1);
    }
}

/// A line that names the 32-bit architecture, with no line before it that
/// names the 64-bit one, makes the detection 32-bit.
pub proof fn law_win32_before_win64(lines: Seq<Seq<u8>>, at: int)
    requires
        0 <= at < lines.len(),
        line_arch(lines[at]) == Some(PrefixArch::X86),
        forall|j: int| 0 <= j < at ==> line_arch(#[trigger] lines[j]) != Some(PrefixArch::X86_64),
    ensures
        first_arch(lines) == Some(PrefixArch::X86),
    decreases lines.len(),
{
    if at > 0 {
        if line_arch(lines[0]) is None {
            assert forall|j: int| 0 <= j < at - 1 implies line_arch(
                #[trigger] lines.drop_first()[j],
            ) != Some(PrefixArch::X86_64) by {
                assert(lines.drop_first()[j] == lines[j + 1]);
            }
            assert(lines.drop_first()[at - 1] == lines[at]);
            law_win32_before_win64(lines.drop_first(), at - 1);
        } else {
            assert(line_arch(lines[0]) != Some(PrefixArch::X86_64));
        }
    }
}

/// Detection fails exactly when no line names an architecture.
pub proof fn law_no_match_fails(lines: Seq<Seq<u8>>)
    ensures
        first_arch(lines) is None <==> forall|j: int|
            0 <= j < lines.len() ==> line_arch(#[trigger] lines[j]) is None,
    decreases lines.len(),
{
    if lines.len() > 0 {
        law_no_match_fails(lines.drop_first());
        if first_arch(lines) is None {
            assert forall|j: int| 0 <= j < lines.len() implies line_arch(
                #[trigger] lines[j],
            ) is None by {
                if j > 0 {
                    assert(lines.drop_first()[j - 1] == lines[j]);
                }
            }
        }
        if forall|j: int| 0 <= j < lines.len() ==> line_arch(#[trigger] lines[j]) is None {
            assert(line_arch(lines[0]) is None);
            assert forall|j: int| 0 <= j < lines.drop_first().len() implies line_arch(
                #[trigger] lines.drop_first()[j],
            ) is None by {
                assert(lines.drop_first()[j] == lines[j + 1]);
            }
        }
    }
}

/// Over all files taken together: if a line names the 32-bit architecture
/// and no line before it, in the order of examination, names the 64-bit
/// one, detection succeeds with the 32-bit architecture.
pub proof fn law_detection_win32_first(files: Seq<Option<Seq<u8>>>, at: int)
    requires
        0 <= at < all_lines(files).len(),
        line_arch(all_lines(files)[at]) == Some(PrefixArch::X86),
        forall|j: int|
            0 <= j < at ==> line_arch(#[trigger] all_lines(files)[j]) != Some(PrefixArch::X86_64),
    ensures
        detection_result(detected(files)) == Ok::<PrefixArch, PrefixError>(PrefixArch::X86),
{
    law_detected_is_first_line(files);
    law_win32_before_win64(all_lines(files), at);
}

/// Over all files taken together: detection fails, with the failure to
/// detect an architecture, exactly when no line of any file that could be
/// opened names one.
pub proof fn law_detection_fails_without_match(files: Seq<Option<Seq<u8>>>)
    ensures
        detection_result(detected(files)) == Err::<PrefixArch, PrefixError>(
            PrefixError::FailedToDetectArch,
        ) <==> forall|j: int|
            0 <= j < all_lines(files).len() ==> line_arch(#[trigger] all_lines(files)[j]) is None,
{
    law_detected_is_first_line(files);
    law_no_match_fails(all_lines(files));
}

} // verus!
