//! What tests print: which messages pass the log filter, and what is said of a
//! transaction that was run.
use vstd::prelude::*;
use vstd::string::{StrSliceExecFns, StringExecFns};

verus! {

/// What becomes of the log filter.
#[derive(Debug)]
pub enum LogFilter {
    /// It stays as it is.
    Keep,
    /// It is replaced.
    Replace(String),
    /// There is no file that could be added to it.
    NoFileName,
}

/// A [`LogFilter`] as contracts speak of it.
pub enum LogFilterView {
    Keep,
    Replace(Seq<char>),
    NoFileName,
}

impl View for LogFilter {
    type V = LogFilterView;

    open spec fn view(&self) -> LogFilterView {
        match *self {
            LogFilter::Keep => LogFilterView::Keep,
            LogFilter::Replace(filter) => LogFilterView::Replace(filter@),
            LogFilter::NoFileName => LogFilterView::NoFileName,
        }
    }
}

/// The text, or a default where there is none.
pub open spec fn text_or(text: Option<String>, default: Seq<char>) -> Seq<char> {
    match text {
        Some(t) => t@,
        None => default,
    }
}

/// The text, where there is one.
pub open spec fn text_of(text: Option<String>) -> Option<Seq<char>> {
    match text {
        Some(t) => Some(t@),
        None => None,
    }
}

/// A filter that ends where another target can be added.
pub open spec fn takes_target(filter: Seq<char>) -> bool {
    filter.len() == 0 || filter.last() == ','
}

/// The filter after a test file is added to it, at the given level. Where the
/// filter does not end in a comma it is left alone.
pub open spec fn filter_with_file(
    filter: Seq<char>,
    file: Option<Seq<char>>,
    level: Seq<char>,
) -> LogFilterView {
    if !takes_target(filter) {
        LogFilterView::Keep
    } else {
        match file {
            Some(name) => LogFilterView::Replace(filter + name + "="@ + level),
            None => LogFilterView::NoFileName,
        }
    }
}

/// What follows the last `c` in `s`; all of `s` where there is none.
pub open spec fn after_last(s: Seq<char>, c: char) -> Seq<char>
    decreases s.len(),
{
    if s.len() == 0 {
        s
    } else if s.last() == c {
        Seq::empty()
    } else {
        after_last(s.drop_last(), c).push(s.last())
    }
}

/// What comes before the last `c` in `s`, where there is one.
pub open spec fn before_last(s: Seq<char>, c: char) -> Option<Seq<char>>
    decreases s.len(),
{
    if s.len() == 0 {
        None
    } else if s.last() == c {
        Some(s.drop_last())
    } else {
        before_last(s.drop_last(), c)
    }
}

/// The name of a file without its extension. A dot at the very front starts no
/// extension.
pub open spec fn stem(name: Seq<char>) -> Seq<char> {
    match before_last(name, '.') {
        Some(front) => if front.len() > 0 {
            front
        } else {
            name
        },
        None => name,
    }
}

/// A path without what its end adds to no name: slashes, and parts that are a
/// single dot.
pub open spec fn trimmed(path: Seq<char>) -> Seq<char>
    decreases path.len(),
{
    if path.len() >= 1 && path.last() == '/' {
        trimmed(path.drop_last())
    } else if path.len() >= 2 && path.last() == '.' && path[path.len() - 2] == '/' {
        trimmed(path.drop_last())
    } else {
        path
    }
}

/// The last name in a path, without its extension. A path that is empty, that is
/// the root, or whose last part is one or two dots, has none.
pub open spec fn file_stem(path: Seq<char>) -> Option<Seq<char>> {
    let name = after_last(trimmed(path), '/');
    if name.len() == 0 || name == seq!['.'] || name == seq!['.', '.'] {
        None
    } else {
        Some(stem(name))
    }
}

/// A character that separates the parts of a path on some platform.
pub open spec fn separator(c: char) -> bool {
    c == '/' || c == '\\'
}

/// A path that could start with a network share: it begins with two separators.
pub open spec fn share_path(path: Seq<char>) -> bool {
    path.len() >= 2 && separator(path[0]) && separator(path[1])
}

/// A path whose last name every platform finds: it does not begin with two
/// separators, and what follows its last slash holds no backslash and no colon.
pub open spec fn plain_path(path: Seq<char>) -> bool {
    let name = after_last(trimmed(path), '/');
    &&& !share_path(path)
    &&& !name.contains('\\')
    &&& !name.contains(':')
}

/// The path with a slash for each separator.
pub open spec fn slashed(path: Seq<char>) -> Seq<char> {
    Seq::new(
        path.len(),
        |i: int|
            if separator(path[i]) {
                '/'
            } else {
                path[i]
            },
    )
}

/// The text is a part of the path, and not empty.
pub open spec fn part_of(text: Seq<char>, path: Seq<char>) -> bool {
    exists|i: int, j: int|
        0 <= i < j <= path.len() && text == #[trigger] path.subrange(i, j)
}

/// What some platform can take for the last name in a path, without its
/// extension. Where the platforms differ, only slashes separate the parts, or
/// backslashes do as well; and then a letter and a colon in front can be a drive.
/// Of a path that could start with a network share, only that the name is a part
/// of it.
pub open spec fn stem_on_some_platform(path: Seq<char>, file: Option<Seq<char>>) -> bool {
    &&& file matches Some(name) ==> part_of(name, path)
    &&& plain_path(path) ==> file == file_stem(path)
    &&& !share_path(path) ==> {
        ||| file == file_stem(path)
        ||| file == file_stem(slashed(path))
        ||| path.len() >= 2 && path[1] == ':' && file == file_stem(slashed(path.skip(2)))
    }
}

/// Calls `std::path::Path::file_stem`. It is the last name in the path without
/// its extension, where there is a last name; repeated and trailing separators,
/// and parts that are a single dot, do not count. What separates the parts of a
/// path, and what is a drive or a network share in front of them, depends on the
/// platform; the contract claims what holds on all of them.
#[verifier::external_body]
fn path_file_stem(path: &str) -> (r: Option<String>)
    ensures
        match r {
            Some(s) => stem_on_some_platform(path@, Some(s@)),
            None => stem_on_some_platform(path@, None),
        },
{
    match std::path::Path::new(path).file_stem() {
        Some(s) => Some(s.to_string_lossy().into_owned()),
        None => None,
    }
}

/// The filter after a test file is added to it, given the file's name without
/// its extension.
pub fn filter_for_file_stem(
    rust_log: Option<String>,
    file_stem: Option<String>,
    test_level: Option<String>,
) -> (r: LogFilter)
    ensures
        r@ == filter_with_file(
            text_or(rust_log, Seq::empty()),
            text_of(file_stem),
            text_or(test_level, "info"@),
        ),
{
    let mut filter = match rust_log {
        Some(filter) => filter,
        None => String::new(),
    };
    let len = filter.as_str().unicode_len();
    if len > 0 && filter.as_str().get_char(len - 1) != ',' {
        return LogFilter::Keep;
    }
    match file_stem {
        None => LogFilter::NoFileName,
        Some(file_stem) => {
            let level = match test_level {
                Some(level) => level,
                None => "info".to_owned(),
            };
            filter.append(file_stem.as_str());
            filter.append("=");
            filter.append(level.as_str());
            LogFilter::Replace(filter)
        },
    }
}

/// The filter that lets the messages of a test file pass, given the filter and the
/// level that are set. A filter that ends in a comma, or that is
/// empty or not set, has the file added to it; any other stays as it is. Which
/// name a path ends in can depend on the platform.
pub fn init_logger_for_test_path(
    rust_log: Option<String>,
    full_path_to_test_file: &str,
    test_level: Option<String>,
) -> (r: LogFilter)
    ensures
        exists|file: Option<Seq<char>>| #[trigger]
            stem_on_some_platform(full_path_to_test_file@, file) && r@ == filter_with_file(
                text_or(rust_log, Seq::empty()),
                file,
                text_or(test_level, "info"@),
            ),
        plain_path(full_path_to_test_file@) ==> r@ == filter_with_file(
            text_or(rust_log, Seq::empty()),
            file_stem(full_path_to_test_file@),
            text_or(test_level, "info"@),
        ),
{
    let file_stem = path_file_stem(full_path_to_test_file);
    assert(stem_on_some_platform(full_path_to_test_file@, text_of(file_stem)));
    filter_for_file_stem(rust_log, file_stem, test_level)
}

/// A test file is added behind what the filter held, and a filter that a file
/// was added to stays as it is from then on, for every file. (A level that ends
/// in a comma would have the next file added behind it.)
pub proof fn law_file_is_added_once(
    filter: Seq<char>,
    file: Seq<char>,
    level: Seq<char>,
    other_file: Option<Seq<char>>,
    other_level: Seq<char>,
)
    requires
        takes_target(filter),
        level.len() > 0 ==> level.last() != ',',
    ensures
        filter_with_file(filter, Some(file), level) matches LogFilterView::Replace(replaced)
            && filter.is_prefix_of(replaced) && filter_with_file(replaced, other_file, other_level)
            == LogFilterView::Keep,
{
    reveal_strlit("=");
    let replaced = filter + file + "="@ + level;
    assert(filter =~= replaced.subrange(0, filter.len() as int));
    if level.len() == 0 {
        assert(replaced =~= filter + file + "="@);
        assert(replaced.last() == '=');
    } else {
        assert(replaced.last() == level.last());
    }
}

/// How grave a message is.
#[derive(Clone, Copy, PartialEq, Eq, Structural, Debug)]
pub enum LogLevel {
    Info,
    Error,
}

/// A message for the log.
#[derive(Debug)]
pub struct LogLine {
    pub level: LogLevel,
    pub text: String,
}

/// A transaction that was run: how it ended, and what its programs logged.
#[derive(Debug)]
pub struct CommittedTransaction {
    /// The text of the error where it failed.
    pub status: Result<(), String>,
    pub log_messages: Option<Vec<String>>,
}

/// What messages say, as contracts speak of it.
pub open spec fn log_text(lines: Seq<LogLine>) -> Seq<(LogLevel, Seq<char>)> {
    Seq::new(lines.len(), |i: int| (lines[i].level, lines[i].text@))
}

/// The messages of programs, each with a mark in front.
pub open spec fn marked(logs: Seq<String>) -> Seq<(LogLevel, Seq<char>)> {
    Seq::new(logs.len(), |i: int| (LogLevel::Info, "> "@ + logs[i]@))
}

/// What is said of a transaction.
pub open spec fn exec_details(transaction: CommittedTransaction) -> Seq<(LogLevel, Seq<char>)> {
    let header = seq![
        (LogLevel::Info, ""@),
        (LogLevel::Info, "=============== Logs ==============="@),
    ];
    match transaction.status {
        Err(error) => header.push((LogLevel::Error, "error executing transaction: "@ + error@)),
        Ok(_) => header + match transaction.log_messages {
            Some(logs) => marked(logs@),
            None => Seq::empty(),
        } + seq![(LogLevel::Info, ""@)],
    }
}

/// What the programs of a transaction logged is told in order between the
/// header and an empty line where the transaction went through, and not at all
/// where it failed.
pub proof fn law_logs_are_told_on_success(transaction: CommittedTransaction)
    ensures
        ({
            let told = exec_details(transaction);
            match transaction.status {
                Err(_) => told.len() == 3 && told[2].0 is Error,
                Ok(_) => {
                    let n = match transaction.log_messages {
                        Some(logs) => logs@.len() as int,
                        None => 0,
                    };
                    &&& told.len() == n + 3
                    &&& forall|i: int| 0 <= i < told.len() ==> (#[trigger] told[i]).0 is Info
                    &&& transaction.log_messages matches Some(logs) ==> forall|i: int|
                        0 <= i < n ==> (#[trigger] told[i + 2]).1 == "> "@ + logs@[i]@
                },
            }
        }),
{
}

fn info(lines: &mut Vec<LogLine>, text: &str)
    ensures
        log_text(final(lines)@) == log_text(old(lines)@).push((LogLevel::Info, text@)),
{
    lines.push(LogLine { level: LogLevel::Info, text: text.to_owned() });
    assert(log_text(lines@) =~= log_text(old(lines)@).push((LogLevel::Info, text@)));
}

/// The messages that tell how a transaction ended. Where it failed only
/// the error is told; where it did not, what its programs logged is.
pub fn log_exec_details(transaction_results: &CommittedTransaction) -> (r: Vec<LogLine>)
    ensures
        log_text(r@) == exec_details(*transaction_results),
{
    let mut lines: Vec<LogLine> = Vec::new();
    info(&mut lines, "");
    info(&mut lines, "=============== Logs ===============");
    let ghost header = log_text(lines@);
    assert(header =~= seq![
        (LogLevel::Info, ""@),
        (LogLevel::Info, "=============== Logs ==============="@),
    ]);
    match &transaction_results.status {
        Err(error) => {
            let mut text = "error executing transaction: ".to_owned();
            text.append(error.as_str());
            lines.push(LogLine { level: LogLevel::Error, text });
            assert(log_text(lines@) =~= header.push(
                (LogLevel::Error, "error executing transaction: "@ + error@),
            ));
            assert(log_text(lines@) =~= exec_details(*transaction_results));
            return lines;
        },
        Ok(_) => {},
    }
    if let Some(logs) = &transaction_results.log_messages {
        for i in 0..logs.len()
            invariant
                log_text(lines@) == header + marked(logs@.take(i as int)),
        {
            let mut text = "> ".to_owned();
            text.append(logs[i].as_str());
            info(&mut lines, text.as_str());
            assert(marked(logs@.take(i + 1)) =~= marked(logs@.take(i as int)).push(
                (LogLevel::Info, text@),
            ));
        }
        assert(logs@.take(logs@.len() as int) =~= logs@);
    }
    info(&mut lines, "");
    assert(log_text(lines@) =~= exec_details(*transaction_results));
    lines
}

/// What contracts say of texts, filters and log lines is said of their own characters.
pub proof fn law_texts_are_their_characters(
    text: String,
    default: Seq<char>,
    lines: Seq<LogLine>,
    i: int,
)
    requires
        0 <= i < lines.len(),
    ensures
        text_or(Some(text), default) == text@,
        text_or(None, default) == default,
        text_of(Some(text)) == Some(text@),
        text_of(None) == None::<Seq<char>>,
        LogFilter::Keep@ == LogFilterView::Keep,
        LogFilter::Replace(text)@ == LogFilterView::Replace(text@),
        LogFilter::NoFileName@ == LogFilterView::NoFileName,
        log_text(lines).len() == lines.len(),
        log_text(lines)[i] == (lines[i].level, lines[i].text@),
{
}

/// A filter that is empty or ends in a comma has the file, an equals sign and the
/// level put behind it, unless there is no file. Every other filter stays.
pub proof fn law_file_and_level_are_put_behind_the_filter(
    filter: Seq<char>,
    file: Seq<char>,
    level: Seq<char>,
)
    ensures
        filter.len() == 0 || filter.last() == ',' ==> {
            &&& filter_with_file(filter, Some(file), level) == LogFilterView::Replace(
                filter + file + seq!['='] + level,
            )
            &&& filter_with_file(filter, None, level) == LogFilterView::NoFileName
        },
        filter.len() > 0 && filter.last() != ',' ==> {
            &&& filter_with_file(filter, Some(file), level) == LogFilterView::Keep
            &&& filter_with_file(filter, None, level) == LogFilterView::Keep
        },
{
    reveal_strlit("=");
    assert("="@ =~= seq!['=']);
}

/// What is told of a transaction, line by line.
pub proof fn law_transaction_is_told_line_by_line(transaction: CommittedTransaction, i: int)
    ensures
        ({
            let told = exec_details(transaction);
            &&& told.len() >= 3
            &&& told[0] == (LogLevel::Info, ""@)
            &&& told[1] == (LogLevel::Info, "=============== Logs ==============="@)
            &&& transaction.status matches Err(error) ==> told.len() == 3 && told[2] == (
                LogLevel::Error,
                "error executing transaction: "@ + error@,
            )
            &&& transaction.status is Ok ==> told.last() == (LogLevel::Info, ""@)
            &&& transaction.status is Ok && transaction.log_messages is None ==> told.len() == 3
            &&& transaction.status is Ok ==> (transaction.log_messages matches Some(logs) ==> {
                &&& told.len() == logs@.len() + 3
                &&& 0 <= i < logs@.len() ==> told[i + 2] == (LogLevel::Info, "> "@ + logs@[i]@)
            })
        }),
{
}

proof fn lemma_after_last(front: Seq<char>, name: Seq<char>, c: char)
    requires
        front.len() == 0 || front.last() == c,
        !name.contains(c),
    ensures
        after_last(front + name, c) == name,
    decreases name.len(),
{
    let s = front + name;
    if name.len() == 0 {
        assert(s =~= front);
        assert(after_last(s, c) =~= name);
    } else {
        let rest = name.drop_last();
        assert(name.contains(name.last()));
        assert(!rest.contains(c)) by {
            if rest.contains(c) {
                let i = choose|i: int| 0 <= i < rest.len() && rest[i] == c;
                assert(name[i] == c);
            }
        }
        lemma_after_last(front, rest, c);
        assert(s.drop_last() =~= front + rest);
        assert(after_last(s, c) =~= name);
    }
}

proof fn lemma_before_last(front: Seq<char>, tail: Seq<char>, c: char)
    requires
        !tail.contains(c),
    ensures
        before_last(front + seq![c] + tail, c) == Some(front),
    decreases tail.len(),
{
    let s = front + seq![c] + tail;
    if tail.len() == 0 {
        assert(s =~= front.push(c));
        assert(s.drop_last() =~= front);
    } else {
        let rest = tail.drop_last();
        assert(tail.contains(tail.last()));
        assert(!rest.contains(c)) by {
            if rest.contains(c) {
                let i = choose|i: int| 0 <= i < rest.len() && rest[i] == c;
                assert(tail[i] == c);
            }
        }
        lemma_before_last(front, rest, c);
        assert(s.drop_last() =~= front + seq![c] + rest);
    }
}

proof fn lemma_nothing_before_last(s: Seq<char>, c: char)
    requires
        !s.contains(c),
    ensures
        before_last(s, c) is None,
    decreases s.len(),
{
    if s.len() > 0 {
        let rest = s.drop_last();
        assert(s.contains(s.last()));
        assert(!rest.contains(c)) by {
            if rest.contains(c) {
                let i = choose|i: int| 0 <= i < rest.len() && rest[i] == c;
                assert(s[i] == c);
            }
        }
        lemma_nothing_before_last(rest, c);
    }
}

proof fn lemma_stem_behind_slash(dir: Seq<char>, name: Seq<char>)
    requires
        dir.len() == 0 || dir.last() == '/',
        name.len() > 0,
        name.last() != '.',
        !name.contains('/'),
    ensures
        trimmed(dir + name) == dir + name,
        after_last(dir + name, '/') == name,
        file_stem(dir + name) == Some(stem(name)),
{
    let path = dir + name;
    assert(name.contains(name.last()));
    assert(path.last() == name.last());
    lemma_after_last(dir, name, '/');
    assert(seq!['.'].last() == '.' && seq!['.', '.'].last() == '.');
}

proof fn lemma_path_with_name(dir: Seq<char>, name: Seq<char>)
    requires
        dir.len() == 0 || dir.last() == '/',
        !(dir.len() >= 2 && (dir[0] == '/' || dir[0] == '\\') && (dir[1] == '/' || dir[1]
            == '\\')),
        name.len() > 0,
        name.last() != '.',
        !name.contains('/'),
        !name.contains('\\'),
        !name.contains(':'),
    ensures
        plain_path(dir + name),
        file_stem(dir + name) == Some(stem(name)),
{
    let path = dir + name;
    assert(name.contains(name[0]));
    lemma_stem_behind_slash(dir, name);
    if path.len() >= 2 && dir.len() < 2 {
        assert(path[dir.len() as int] == name[0]);
        if dir.len() == 0 {
            assert(path[0] == name[0]);
        }
    }
}

/// On every platform, the stem of an ordinary path is the name of its file in front
/// of the last dot, whatever directory stands before it; and it is the whole name
/// where this has no dot, or has one only at the very front.
pub proof fn law_stem_is_the_name_before_the_extension(
    dir: Seq<char>,
    name: Seq<char>,
    extension: Seq<char>,
    file: Option<Seq<char>>,
)
    requires
        dir.len() == 0 || dir.last() == '/',
        !(dir.len() >= 2 && (dir[0] == '/' || dir[0] == '\\') && (dir[1] == '/' || dir[1]
            == '\\')),
        name.len() > 0,
        !name.contains('/'),
        !name.contains('\\'),
        !name.contains(':'),
        extension.len() > 0,
        !extension.contains('/'),
        !extension.contains('\\'),
        !extension.contains(':'),
        !extension.contains('.'),
    ensures
        stem_on_some_platform(dir + (name + seq!['.'] + extension), file) ==> file == Some(name),
        stem_on_some_platform(dir + extension, file) ==> file == Some(extension),
        stem_on_some_platform(dir + (seq!['.'] + extension), file) ==> file == Some(
            seq!['.'] + extension,
        ),
{
    let whole = name + seq!['.'] + extension;
    let hidden = seq!['.'] + extension;
    assert(extension.contains(extension.last()));
    assert forall|c: char| c != '.' && !name.contains(c) && !extension.contains(c) implies !(
    #[trigger] whole.contains(c)) by {
        if whole.contains(c) {
            let i = choose|i: int| 0 <= i < whole.len() && whole[i] == c;
            if i < name.len() {
                assert(name[i] == c);
            } else if i > name.len() {
                assert(extension[i - name.len() - 1] == c);
            }
        }
    }
    assert forall|c: char| c != '.' && !extension.contains(c) implies !(#[trigger] hidden.contains(
        c,
    )) by {
        if hidden.contains(c) {
            let i = choose|i: int| 0 <= i < hidden.len() && hidden[i] == c;
            if i > 0 {
                assert(extension[i - 1] == c);
            }
        }
    }
    lemma_path_with_name(dir, whole);
    lemma_before_last(name, extension, '.');
    lemma_path_with_name(dir, extension);
    lemma_nothing_before_last(extension, '.');
    lemma_path_with_name(dir, hidden);
    lemma_before_last(Seq::empty(), extension, '.');
    assert(Seq::<char>::empty() + seq!['.'] + extension =~= hidden);
}

/// On every platform, slashes at the end of an ordinary path make no difference to
/// its stem, a dot at the end of a name is not part of the stem, and a path that ends in
/// two dots has none, nor does an empty one.
pub proof fn law_end_of_a_path_is_no_name(
    dir: Seq<char>,
    name: Seq<char>,
    slashes: nat,
    file: Option<Seq<char>>,
)
    requires
        dir.len() == 0 || dir.last() == '/',
        !(dir.len() >= 2 && (dir[0] == '/' || dir[0] == '\\') && (dir[1] == '/' || dir[1]
            == '\\')),
        name.len() > 0,
        !name.contains('/'),
        !name.contains('\\'),
        !name.contains(':'),
        !name.contains('.'),
    ensures
        stem_on_some_platform(dir + name + Seq::new(slashes, |i: int| '/'), file) ==> file == Some(
            name,
        ),
        stem_on_some_platform(dir + name.push('.'), file) ==> file == Some(name),
        stem_on_some_platform(dir + seq!['.', '.'], file) ==> file == None::<Seq<char>>,
        stem_on_some_platform(Seq::empty(), file) ==> file == None::<Seq<char>>,
{
    assert(name.contains(name[0]));
    assert(name.contains(name.last()));
    lemma_path_with_name(dir, name);
    lemma_nothing_before_last(name, '.');
    lemma_trailing_slashes(dir + name, slashes);
    let path = dir + name + Seq::new(slashes, |i: int| '/');
    assert(path[0] == (dir + name)[0]);
    if path.len() >= 2 {
        if dir.len() >= 2 {
            assert(path[1] == dir[1] && path[0] == dir[0]);
        } else if dir.len() == 1 {
            assert(path[1] == name[0]);
        } else {
            assert(path[0] == name[0]);
        }
    }
    assert(plain_path(path));
    let dotted = name.push('.');
    assert forall|c: char| c != '.' && !name.contains(c) implies !(#[trigger] dotted.contains(c)) by {
        if dotted.contains(c) {
            let i = choose|i: int| 0 <= i < dotted.len() && dotted[i] == c;
            assert(name[i] == c);
        }
    }
    let with_dot = dir + dotted;
    assert(with_dot[with_dot.len() - 2] == name.last());
    assert(trimmed(with_dot) == with_dot);
    lemma_after_last(dir, dotted, '/');
    lemma_before_last(name, Seq::empty(), '.');
    assert(name + seq!['.'] + Seq::<char>::empty() =~= dotted);
    assert(dotted[0] == name[0] && name[0] != '.');
    assert(!share_path(with_dot)) by {
        assert(with_dot[dir.len() as int] == name[0]);
    }
    let parent = seq!['.', '.'];
    let up = dir + parent;
    assert(up.last() == '.' && up[up.len() - 2] == '.');
    assert(trimmed(up) == up);
    lemma_after_last(dir, parent, '/');
    assert(!share_path(up)) by {
        assert(up[dir.len() as int] == '.');
    }
    assert(after_last(Seq::empty(), '/').len() == 0);
}

proof fn lemma_trailing_slashes(path: Seq<char>, n: nat)
    ensures
        trimmed(path + Seq::new(n, |i: int| '/')) == trimmed(path),
    decreases n,
{
    let longer = path + Seq::new(n, |i: int| '/');
    if n == 0 {
        assert(longer =~= path);
    } else {
        lemma_trailing_slashes(path, (n - 1) as nat);
        assert(longer.drop_last() =~= path + Seq::new((n - 1) as nat, |i: int| '/'));
        assert(longer.last() == '/');
    }
}

/// Behind a directory that is written with backslashes alone, the stem of a path is
/// the name of its file in front of the extension, or, where backslashes separate
/// nothing, the directory and that name.
pub proof fn law_stem_behind_backslashes(
    dir: Seq<char>,
    name: Seq<char>,
    extension: Seq<char>,
    file: Option<Seq<char>>,
)
    requires
        dir.len() > 0,
        dir.last() == '\\',
        !dir.contains('/'),
        !(dir.len() >= 2 && dir[0] == '\\' && dir[1] == '\\'),
        name.len() > 0,
        !name.contains('/'),
        !name.contains('\\'),
        !name.contains(':'),
        extension.len() > 0,
        !extension.contains('/'),
        !extension.contains('\\'),
        !extension.contains(':'),
        !extension.contains('.'),
    ensures
        stem_on_some_platform(dir + (name + seq!['.'] + extension), file) ==> file == Some(name)
            || file == Some(dir + name),
{
    let whole = name + seq!['.'] + extension;
    let path = dir + whole;
    assert(extension.contains(extension.last()));
    assert(name.contains(name[0]));
    assert forall|i: int| 0 <= i < whole.len() implies whole[i] != '/' && whole[i] != '\\' by {
        if i < name.len() {
            assert(name.contains(name[i]));
        } else if i > name.len() {
            assert(extension[i - name.len() - 1] == whole[i]);
            assert(extension.contains(whole[i]));
        }
    }
    assert forall|i: int| 0 <= i < path.len() implies path[i] != '/' by {
        if i < dir.len() {
            assert(dir.contains(dir[i]));
        } else {
            assert(path[i] == whole[i - dir.len()]);
        }
    }
    lemma_before_last(name, extension, '.');
    assert(path =~= dir + name + seq!['.'] + extension);
    lemma_before_last(dir + name, extension, '.');
    lemma_stem_behind_slash(Seq::empty(), path);
    assert(Seq::<char>::empty() + path =~= path);
    assert(slashed(path) =~= slashed(dir) + whole);
    lemma_stem_behind_slash(slashed(dir), whole);
    assert(!share_path(path)) by {
        if dir.len() >= 2 {
            assert(path[0] == dir[0] && path[1] == dir[1]);
            assert(dir.contains(dir[0]) && dir.contains(dir[1]));
        } else {
            assert(path[1] == whole[0] && whole[0] == name[0]);
        }
    }
    if path[1] == ':' {
        if dir.len() < 2 {
            assert(path[1] == whole[0] && whole[0] == name[0]);
        }
        assert(dir[1] == ':');
        assert(dir.len() >= 3);
        let rest = dir.skip(2);
        assert(path.skip(2) =~= rest + whole);
        assert(slashed(path.skip(2)) =~= slashed(rest) + whole);
        assert(slashed(rest).last() == '/');
        lemma_stem_behind_slash(slashed(rest), whole);
    }
}

} // verus!
