//! Helpers around the registry: which files are watched, and the line that
//! reports what an event changed.

use vstd::prelude::*;
use vstd::string::*;
use crate::text::equal;

verus! {

/// The extension of a path, as `std::path::Path::extension` gives it for
/// the platform the library is built for.
pub uninterp spec fn extension_of(path: Seq<char>) -> Option<Seq<char>>;

/// Whether a file extension marks a source file that can carry markup.
pub open spec fn is_code_extension(ext: Option<Seq<char>>) -> bool {
    ext == Some("tsx"@) || ext == Some("jsx"@)
}

/// Calls `std::path::Path::extension` on `path`. What it returns depends on
/// the text of the path alone; the contract names that result
/// `extension_of` and claims nothing more of it. Nothing here is proved of
/// how a path is taken apart.
#[verifier::external_body]
fn path_extension(path: &str) -> (ext: Option<String>)
    ensures
        match ext {
            Some(e) => extension_of(path@) == Some(e@),
            None => extension_of(path@) is None,
        },
{
    match std::path::Path::new(path).extension() {
        Some(e) => Some(e.to_string_lossy().into_owned()),
        None => None,
    }
}

/// Decides, from the extension of a path, whether the file is watched.
pub fn has_code_extension(ext: Option<&str>) -> (code: bool)
    ensures
        code == is_code_extension(
            match ext {
                Some(e) => Some(e@),
                None => None,
            },
        ),
{
    match ext {
        Some(e) => equal(e, "tsx") || equal(e, "jsx"),
        None => false,
    }
}

/// Whether `path` names a source file that is watched: one whose extension
/// is `tsx` or `jsx`.
pub fn is_code_file(path: &str) -> (code: bool)
    ensures
        code == is_code_extension(extension_of(path@)),
{
    match path_extension(path) {
        Some(e) => has_code_extension(Some(e.as_str())),
        None => has_code_extension(None),
    }
}

/// Of `paths`, in their order, those that name watched source files.
pub open spec fn code_files(paths: Seq<Seq<char>>) -> Seq<Seq<char>>
    decreases paths.len(),
{
    if paths.len() == 0 {
        Seq::empty()
    } else {
        let head = code_files(paths.drop_last());
        if is_code_extension(extension_of(paths.last())) {
            head.push(paths.last())
        } else {
            head
        }
    }
}

/// Picks the watched source files out of the paths found below a
/// directory, keeping their order.
pub fn find_code_files(found: &Vec<String>) -> (files: Vec<String>)
    ensures
        files@.map_values(|p: String| p@) == code_files(found@.map_values(|p: String| p@)),
{
    let ghost paths = found@.map_values(|p: String| p@);
    let mut files: Vec<String> = Vec::new();
    let mut i: usize = 0;
    proof {
        assert(paths.take(0) =~= Seq::<Seq<char>>::empty());
        assert(files@.map_values(|p: String| p@) =~= code_files(paths.take(0)));
    }
    while i < found.len()
        invariant
            i <= found.len(),
            paths == found@.map_values(|p: String| p@),
            files@.map_values(|p: String| p@) == code_files(paths.take(i as int)),
        decreases found.len() - i,
    {
        let ghost head = files@.map_values(|p: String| p@);
        proof {
            assert(paths.take(i + 1).drop_last() =~= paths.take(i as int));
            assert(paths.take(i + 1).last() == found@[i as int]@);
        }
        if is_code_file(found[i].as_str()) {
            files.push(found[i].clone());
            assert(files@.map_values(|p: String| p@) =~= head.push(found@[i as int]@));
        }
        i += 1;
    }
    assert(paths.take(found.len() as int) =~= paths);
    files
}

/// The character of a decimal digit.
pub open spec fn digit(d: nat) -> char {
    if d == 0 {
        '0'
    } else if d == 1 {
        '1'
    } else if d == 2 {
        '2'
    } else if d == 3 {
        '3'
    } else if d == 4 {
        '4'
    } else if d == 5 {
        '5'
    } else if d == 6 {
        '6'
    } else if d == 7 {
        '7'
    } else if d == 8 {
        '8'
    } else {
        '9'
    }
}

/// The decimal numeral of a number, without leading zeros.
pub open spec fn decimal(n: nat) -> Seq<char>
    decreases n,
{
    if n < 10 {
        seq![digit(n)]
    } else {
        decimal(n / 10).push(digit(n % 10))
    }
}

fn digit_text(d: u128) -> (text: &'static str)
    requires
        d < 10,
    ensures
        text@ == seq![digit(d as nat)],
{
    proof {
        reveal_strlit("0");
        reveal_strlit("1");
        reveal_strlit("2");
        reveal_strlit("3");
        reveal_strlit("4");
        reveal_strlit("5");
        reveal_strlit("6");
        reveal_strlit("7");
        reveal_strlit("8");
        reveal_strlit("9");
    }
    let text = if d == 0 {
        "0"
    } else if d == 1 {
        "1"
    } else if d == 2 {
        "2"
    } else if d == 3 {
        "3"
    } else if d == 4 {
        "4"
    } else if d == 5 {
        "5"
    } else if d == 6 {
        "6"
    } else if d == 7 {
        "7"
    } else if d == 8 {
        "8"
    } else {
        "9"
    };
    assert(text@ =~= seq![digit(d as nat)]);
    text
}

/// The decimal numeral of `n`.
pub fn decimal_text(n: u128) -> (text: String)
    ensures
        text@ == decimal(n as nat),
    decreases n,
{
    if n < 10 {
        digit_text(n).to_owned()
    } else {
        let mut text = decimal_text(n / 10);
        text.append(digit_text(n % 10));
        assert(text@ =~= decimal(n as nat));
        text
    }
}

/// The parts of the line that reports an event.
#[derive(Debug)]
pub struct ChangeLog {
    /// The path of the source file.
    pub source: String,
    /// The names the file gained, as `+n`.
    pub added_file: String,
    /// The names the file lost, as `-n`.
    pub removed_file: String,
    /// The path of the stylesheet.
    pub output: String,
    /// The names that entered the active set, as `+n`.
    pub added_global: String,
    /// The names that left the active set, as `-n`.
    pub removed_global: String,
    /// The time the event took: microseconds below a millisecond, else
    /// whole milliseconds.
    pub time: String,
}

/// The text of an elapsed time given in microseconds.
pub open spec fn elapsed(time_us: nat) -> Seq<char> {
    if time_us < 1000 {
        decimal(time_us) + "\u{b5}s"@
    } else {
        decimal(time_us / 1000) + "ms"@
    }
}

/// The line of a report: its parts with what stands between them.
pub open spec fn report_line(
    source: Seq<char>,
    added_file: Seq<char>,
    removed_file: Seq<char>,
    output: Seq<char>,
    added_global: Seq<char>,
    removed_global: Seq<char>,
    time: Seq<char>,
) -> Seq<char> {
    source + " ("@ + added_file + ", "@ + removed_file + ") -> "@ + output + " ("@ + added_global + ", "@
        + removed_global + ") \u{b7} "@ + time
}

impl ChangeLog {
    /// The whole line, without colours.
    pub fn line(&self) -> (text: String)
        ensures
            text@ == report_line(
                self.source@,
                self.added_file@,
                self.removed_file@,
                self.output@,
                self.added_global@,
                self.removed_global@,
                self.time@,
            ),
    {
        let mut text = self.source.clone();
        text.append(" (");
        text.append(self.added_file.as_str());
        text.append(", ");
        text.append(self.removed_file.as_str());
        text.append(") -> ");
        text.append(self.output.as_str());
        text.append(" (");
        text.append(self.added_global.as_str());
        text.append(", ");
        text.append(self.removed_global.as_str());
        text.append(") \u{b7} ");
        text.append(self.time.as_str());
        text
    }
}

fn signed(sign: &str, n: usize) -> (text: String)
    ensures
        text@ == sign@ + decimal(n as nat),
{
    let mut text = sign.to_owned();
    let digits = decimal_text(n as u128);
    text.append(digits.as_str());
    text
}

/// The report of an event: the source path, what the file gained and lost,
/// the path of the stylesheet, what the active set gained and lost, and the
/// time taken. An event that changed nothing has no report.
pub fn log_change(
    source_path: &str,
    added_file: usize,
    removed_file: usize,
    output_path: &str,
    added_global: usize,
    removed_global: usize,
    time_us: u128,
) -> (log: Option<ChangeLog>)
    ensures
        log is None <==> (added_file == 0 && removed_file == 0 && added_global == 0 && removed_global == 0),
        log matches Some(l) ==> {
            &&& l.source@ == source_path@
            &&& l.added_file@ == "+"@ + decimal(added_file as nat)
            &&& l.removed_file@ == "-"@ + decimal(removed_file as nat)
            &&& l.output@ == output_path@
            &&& l.added_global@ == "+"@ + decimal(added_global as nat)
            &&& l.removed_global@ == "-"@ + decimal(removed_global as nat)
            &&& l.time@ == elapsed(time_us as nat)
        },
{
    if added_file == 0 && removed_file == 0 && added_global == 0 && removed_global == 0 {
        return None;
    }
    let time = if time_us < 1000 {
        let mut time = decimal_text(time_us);
        time.append("\u{b5}s");
        time
    } else {
        let mut time = decimal_text(time_us / 1000);
        time.append("ms");
        time
    };
    Some(
        ChangeLog {
            source: source_path.to_owned(),
            added_file: signed("+", added_file),
            removed_file: signed("-", removed_file),
            output: output_path.to_owned(),
            added_global: signed("+", added_global),
            removed_global: signed("-", removed_global),
            time,
        },
    )
}

} // verus!
