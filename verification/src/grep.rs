//! Searching files and rendering what was found.

use crate::grep_config::{GrepConfig, GrepOption};
use crate::lines::{
    after_first_line, all_lines_valid, first_line, law_lines_valid_iff_file_valid,
    lemma_line_count, next_line, split_lines,
};
use crate::pattern::{
    all_compile, any_match, first_refused, prepared_pattern, prepared_patterns, PatternSet,
};
use crate::text::{decimal, decimal_string, join_lines, joined, lowercase, push_decimal, texts};
use crate::window::{
    context_select, law_no_context_shows_selected, lemma_tracks_end, lemma_tracks_start,
    lemma_tracks_step, selected_items, step_emitted, step_pending, tracks, LineContextWindow,
};
use vstd::prelude::*;
use vstd::slice::slice_subrange;
use vstd::utf8::{decode_utf8, valid_utf8};

verus! {

/// Why a search failed.
#[derive(Debug, PartialEq, Eq)]
pub enum GrepError {
    /// A file could not be opened.
    FileNotExists,
    /// A file holds a line that is not valid UTF-8.
    NotValidUTF8,
    /// A query is no valid pattern; the text is the pattern as it was handed
    /// to the pattern compiler.
    Query(String),
}

/// A line of a file: its number, counted from one, and its text without the
/// line ending.
#[derive(Debug, PartialEq, Eq)]
pub struct LineResult {
    pub line_number: usize,
    pub text: String,
}

/// A line as a number and a sequence of characters.
pub struct LineView {
    pub number: nat,
    pub text: Seq<char>,
}

impl View for LineResult {
    type V = LineView;

    open spec fn view(&self) -> LineView {
        LineView { number: self.line_number as nat, text: self.text@ }
    }
}

/// The view of each line.
pub open spec fn line_views(lines: Seq<LineResult>) -> Seq<LineView> {
    Seq::new(lines.len(), |i: int| lines[i]@)
}

/// The lines of a file that is valid UTF-8.
pub open spec fn file_lines(bytes: Seq<u8>) -> Seq<LineView> {
    let raw = split_lines(bytes);
    Seq::new(raw.len(), |i: int| LineView { number: (i + 1) as nat, text: decode_utf8(raw[i]) })
}

/// The text that the queries are matched against: the line itself, or its
/// lower-case form where case is ignored.
pub open spec fn compared_text(text: Seq<char>, case_insensitive: bool) -> Seq<char> {
    if case_insensitive {
        lowercase(text)
    } else {
        text
    }
}

/// Whether a line is selected: it matches some pattern, or, inverted, none.
pub open spec fn line_selected(
    patterns: Seq<Seq<char>>,
    case_insensitive: bool,
    invert: bool,
    text: Seq<char>,
) -> bool {
    any_match(patterns, compared_text(text, case_insensitive)) != invert
}

/// For each line of the file, whether it is selected.
pub open spec fn file_marks(
    bytes: Seq<u8>,
    patterns: Seq<Seq<char>>,
    case_insensitive: bool,
    invert: bool,
) -> Seq<bool> {
    let lines = file_lines(bytes);
    Seq::new(
        lines.len(),
        |i: int| line_selected(patterns, case_insensitive, invert, lines[i].text),
    )
}

/// The lines of a file that a search shows: the selected lines and their
/// context, in the order of the file.
pub open spec fn scanned_lines(
    bytes: Seq<u8>,
    patterns: Seq<Seq<char>>,
    case_insensitive: bool,
    invert: bool,
    before: nat,
    after: nat,
) -> Seq<LineView> {
    context_select(
        file_lines(bytes),
        file_marks(bytes, patterns, case_insensitive, invert),
        before,
        after,
    )
}

/// The views of what one step of the window yields are what the step yields
/// on the views.
proof fn lemma_views_step(
    out: Seq<LineResult>,
    pending: Seq<LineResult>,
    remaining: nat,
    before: nat,
    item: LineResult,
    selected: bool,
)
    ensures
        line_views(out + step_emitted(pending, remaining, item, selected)) == line_views(out)
            + step_emitted(line_views(pending), remaining, item@, selected),
        line_views(step_pending(before, pending, remaining, item, selected)) == step_pending(
            before,
            line_views(pending),
            remaining,
            item@,
            selected,
        ),
{
    assert(line_views(out + step_emitted(pending, remaining, item, selected)) =~= line_views(out)
        + step_emitted(line_views(pending), remaining, item@, selected));
    assert(line_views(step_pending(before, pending, remaining, item, selected)) =~= step_pending(
        before,
        line_views(pending),
        remaining,
        item@,
        selected,
    ));
}

/// Searches the bytes of one file in one pass. Each line is decoded, matched
/// against the queries in its lower-case form where case is ignored, and
/// handed to the context window. A line that is not valid UTF-8 fails the
/// whole file, and only a file that is not valid UTF-8 has such a line.
pub fn scan_lines(
    content: &[u8],
    queries: &PatternSet,
    case_insensitive: bool,
    invert: bool,
    num_pre_lines: usize,
    num_post_lines: usize,
) -> (r: Result<Vec<LineResult>, GrepError>)
    ensures
        match r {
            Ok(lines) => valid_utf8(content@) && line_views(lines@) == scanned_lines(
                content@,
                queries@,
                case_insensitive,
                invert,
                num_pre_lines as nat,
                num_post_lines as nat,
            ),
            Err(GrepError::NotValidUTF8) => !valid_utf8(content@),
            Err(_) => false,
        },
{
    let ghost raw = split_lines(content@);
    let ghost items = file_lines(content@);
    let ghost marks = file_marks(content@, queries@, case_insensitive, invert);
    let ghost before = num_pre_lines as nat;
    let ghost after = num_post_lines as nat;
    let mut window: LineContextWindow<LineResult> = LineContextWindow::new(
        num_pre_lines,
        num_post_lines,
    );
    let mut out: Vec<LineResult> = Vec::new();
    let mut pos: usize = 0;
    let mut count: usize = 0;
    proof {
        law_lines_valid_iff_file_valid(content@);
        lemma_line_count(content@);
        lemma_tracks_start(items, marks, before, after);
        assert(content@.skip(0) =~= content@);
        assert(raw.skip(0) =~= raw);
        assert(line_views(out@) =~= Seq::<LineView>::empty());
        assert(line_views(window.pending()) =~= Seq::<LineView>::empty());
    }
    while pos < content.len()
        invariant
            raw == split_lines(content@),
            all_lines_valid(content@) == valid_utf8(content@),
            items == file_lines(content@),
            marks == file_marks(content@, queries@, case_insensitive, invert),
            before == num_pre_lines as nat,
            after == num_post_lines as nat,
            raw.len() <= content@.len(),
            pos <= content@.len(),
            count <= raw.len(),
            raw.skip(count as int) == split_lines(content@.skip(pos as int)),
            forall|j: int| 0 <= j < count ==> valid_utf8(#[trigger] raw[j]),
            window.wf(),
            window.pre_capacity() == before,
            window.post_capacity() == after,
            tracks(
                items,
                marks,
                before,
                after,
                count as int,
                line_views(out@),
                line_views(window.pending()),
                window.post_remaining(),
            ),
        decreases content@.len() - pos,
    {
        let ghost rest = content@.skip(pos as int);
        let (end, next) = next_line(content, pos);
        let line = slice_subrange(content, pos, end);
        proof {
            let tail = split_lines(after_first_line(rest));
            assert(raw.skip(count as int) == seq![first_line(rest)] + tail);
            assert(raw.skip(count as int).len() == 1 + tail.len());
            assert(raw.skip(count as int)[0] == raw[count as int]);
            assert(raw.skip(count + 1) =~= raw.skip(count as int).skip(1));
            assert(raw.skip(count as int).skip(1) =~= tail);
        }
        let text = match std::str::from_utf8(line) {
            Ok(s) => s.to_owned(),
            Err(_) => {
                return Err(GrepError::NotValidUTF8);
            },
        };
        let matched = if case_insensitive {
            let folded = text.as_str().to_lowercase();
            queries.matches(folded.as_str())
        } else {
            queries.matches(text.as_str())
        };
        let selected = matched != invert;
        let item = LineResult { line_number: count + 1, text };
        proof {
            assert(item@ == items[count as int]);
            assert(selected == marks[count as int]);
            lemma_tracks_step(
                items,
                marks,
                before,
                after,
                count as int,
                line_views(out@),
                line_views(window.pending()),
                window.post_remaining(),
            );
            lemma_views_step(
                out@,
                window.pending(),
                window.post_remaining(),
                before,
                item,
                selected,
            );
        }
        window.feed(item, selected, &mut out);
        count = count + 1;
        pos = next;
    }
    proof {
        assert(content@.skip(pos as int) =~= Seq::<u8>::empty());
        assert(raw.skip(count as int).len() == 0);
        lemma_tracks_end(
            items,
            marks,
            before,
            after,
            line_views(out@),
            line_views(window.pending()),
            window.post_remaining(),
        );
    }
    Ok(out)
}

/// A file to search: the name it is shown under, and its bytes, or `None`
/// where it could not be opened.
pub struct SourceFile {
    pub name: String,
    pub content: Option<Vec<u8>>,
}

/// What a search shows of one file.
#[derive(Debug, PartialEq, Eq)]
pub struct FileResult {
    pub file_name: String,
    pub lines: Vec<LineResult>,
}

/// A file's result as a name and a sequence of lines.
pub struct FileView {
    pub name: Seq<char>,
    pub lines: Seq<LineView>,
}

impl View for FileResult {
    type V = FileView;

    open spec fn view(&self) -> FileView {
        FileView { name: self.file_name@, lines: line_views(self.lines@) }
    }
}

/// The lines of a file that a search with this configuration shows.
pub open spec fn shown_lines(content: Seq<u8>, patterns: Seq<Seq<char>>, config: GrepConfig) -> Seq<
    LineView,
> {
    scanned_lines(
        content,
        patterns,
        config.options@.contains(GrepOption::CaseInsensitive),
        config.options@.contains(GrepOption::Invert),
        config.num_pre_lines as nat,
        config.num_post_lines as nat,
    )
}

/// The file cannot be searched: it could not be opened, or it is not valid
/// UTF-8.
pub open spec fn unreadable(source: SourceFile) -> bool {
    match source.content {
        None => true,
        Some(bytes) => !valid_utf8(bytes@),
    }
}

/// File `k` cannot be searched, and every file before it can.
pub open spec fn fails_first(sources: Seq<SourceFile>, k: int) -> bool {
    &&& 0 <= k < sources.len()
    &&& unreadable(sources[k])
    &&& forall|j: int| 0 <= j < k ==> !unreadable(#[trigger] sources[j])
}

/// The result of searching every file, where every file can be searched.
pub open spec fn scanned_files(
    sources: Seq<SourceFile>,
    patterns: Seq<Seq<char>>,
    config: GrepConfig,
) -> Seq<FileView> {
    Seq::new(
        sources.len(),
        |i: int|
            FileView {
                name: sources[i].name@,
                lines: shown_lines(sources[i].content->0@, patterns, config),
            },
    )
}

/// What searching the files gives: the result for every file, or the failure
/// of the first file that cannot be searched.
pub open spec fn scan_outcome(
    r: Result<GrepResult, GrepError>,
    sources: Seq<SourceFile>,
    patterns: Seq<Seq<char>>,
    config: GrepConfig,
) -> bool {
    match r {
        Ok(found) => {
            &&& forall|j: int| 0 <= j < sources.len() ==> !unreadable(#[trigger] sources[j])
            &&& found@ == scanned_files(sources, patterns, config)
        },
        Err(GrepError::FileNotExists) => exists|k: int|
            #[trigger] fails_first(sources, k) && sources[k].content is None,
        Err(GrepError::NotValidUTF8) => exists|k: int|
            #[trigger] fails_first(sources, k) && sources[k].content is Some,
        Err(GrepError::Query(_)) => false,
    }
}

impl FileResult {
    /// Searches one file. A file that could not be opened fails with
    /// `FileNotExists`, a file that is not valid UTF-8 with `NotValidUTF8`.
    pub fn new(source: &SourceFile, queries: &PatternSet, config: &GrepConfig) -> (r: Result<
        FileResult,
        GrepError,
    >)
        ensures
            match r {
                Ok(found) => !unreadable(*source) && found@ == (FileView {
                    name: source.name@,
                    lines: shown_lines(source.content->0@, queries@, *config),
                }),
                Err(GrepError::FileNotExists) => source.content is None,
                Err(GrepError::NotValidUTF8) => source.content is Some && unreadable(*source),
                Err(GrepError::Query(_)) => false,
            },
    {
        match &source.content {
            None => Err(GrepError::FileNotExists),
            Some(bytes) => {
                let lines = scan_lines(
                    bytes.as_slice(),
                    queries,
                    config.options.contains(GrepOption::CaseInsensitive),
                    config.options.contains(GrepOption::Invert),
                    config.num_pre_lines,
                    config.num_post_lines,
                )?;
                Ok(FileResult { file_name: source.name.clone(), lines })
            },
        }
    }
}

/// A rendered line: the file name and a colon where file names are shown,
/// the line number and a colon where line numbers are shown, then the text
/// of the line as it stands in the file.
pub open spec fn rendered_line(
    name: Seq<char>,
    with_name: bool,
    line: LineView,
    with_number: bool,
) -> Seq<char> {
    let name_part = if with_name {
        name.push(':')
    } else {
        Seq::empty()
    };
    let number_part = if with_number {
        decimal(line.number).push(':')
    } else {
        Seq::empty()
    };
    name_part + number_part + line.text
}

/// The rendered lines of one file.
pub open spec fn rendered_file(file: FileView, with_name: bool, with_number: bool) -> Seq<
    Seq<char>,
> {
    Seq::new(
        file.lines.len(),
        |i: int| rendered_line(file.name, with_name, file.lines[i], with_number),
    )
}

/// The rendered lines of the first `n` files.
pub open spec fn rendered_files(
    files: Seq<FileView>,
    with_name: bool,
    with_number: bool,
    n: int,
) -> Seq<Seq<char>>
    decreases n,
{
    if n <= 0 {
        Seq::empty()
    } else {
        rendered_files(files, with_name, with_number, n - 1) + rendered_file(
            files[n - 1],
            with_name,
            with_number,
        )
    }
}

/// The rendered lines of a result. File names are shown exactly when the
/// result has more than one file.
pub open spec fn rendered_lines(files: Seq<FileView>, with_number: bool) -> Seq<Seq<char>> {
    rendered_files(files, files.len() > 1, with_number, files.len() as int)
}

/// The rendered text of a result: the number of lines in decimal digits, or
/// the lines with a line feed between each two.
pub open spec fn rendered_text(files: Seq<FileView>, with_number: bool, count_only: bool) -> Seq<
    char,
> {
    let lines = rendered_lines(files, with_number);
    if count_only {
        decimal(lines.len())
    } else {
        joined(lines)
    }
}

/// What a search shows, file by file in the order of the files.
#[derive(Debug, PartialEq, Eq)]
pub struct GrepResult {
    pub file_results: Vec<FileResult>,
}

impl View for GrepResult {
    type V = Seq<FileView>;

    open spec fn view(&self) -> Seq<FileView> {
        Seq::new(self.file_results@.len(), |i: int| self.file_results@[i]@)
    }
}

impl GrepResult {
    /// Searches the files with queries that are compiled already. The first
    /// file that cannot be searched fails the whole search.
    pub fn scan(sources: &Vec<SourceFile>, queries: &PatternSet, config: &GrepConfig) -> (r: Result<
        GrepResult,
        GrepError,
    >)
        ensures
            scan_outcome(r, sources@, queries@, *config),
    {
        let mut file_results: Vec<FileResult> = Vec::new();
        let mut i: usize = 0;
        while i < sources.len()
            invariant
                i <= sources.len(),
                file_results@.len() == i,
                forall|j: int| 0 <= j < i ==> !unreadable(#[trigger] sources@[j]),
                forall|j: int|
                    0 <= j < i ==> (#[trigger] file_results@[j])@ == (FileView {
                        name: sources@[j].name@,
                        lines: shown_lines(sources@[j].content->0@, queries@, *config),
                    }),
            decreases sources.len() - i,
        {
            match FileResult::new(&sources[i], queries, config) {
                Ok(found) => {
                    file_results.push(found);
                },
                Err(e) => {
                    assert(fails_first(sources@, i as int));
                    return Err(e);
                },
            }
            i = i + 1;
        }
        let found = GrepResult { file_results };
        assert(found@ =~= scanned_files(sources@, queries@, *config));
        Ok(found)
    }

    /// Compiles the queries of the configuration and searches the files. The
    /// first query that is no valid pattern fails the search before any file
    /// counts; where every query compiles, the files decide.
    pub fn new(config: &GrepConfig, sources: &Vec<SourceFile>) -> (r: Result<GrepResult, GrepError>)
        ensures
            match r {
                Err(GrepError::Query(p)) => exists|k: int|
                    #[trigger] first_refused(
                        texts(config.queries@),
                        config.options@.contains(GrepOption::CaseInsensitive),
                        config.options@.contains(GrepOption::Word),
                        k,
                    ) && p@ == prepared_pattern(
                        config.queries@[k]@,
                        config.options@.contains(GrepOption::CaseInsensitive),
                        config.options@.contains(GrepOption::Word),
                    ),
                _ => all_compile(
                    texts(config.queries@),
                    config.options@.contains(GrepOption::CaseInsensitive),
                    config.options@.contains(GrepOption::Word),
                ) && scan_outcome(
                    r,
                    sources@,
                    prepared_patterns(
                        texts(config.queries@),
                        config.options@.contains(GrepOption::CaseInsensitive),
                        config.options@.contains(GrepOption::Word),
                    ),
                    *config,
                ),
            },
    {
        let queries = PatternSet::compile(
            &config.queries,
            config.options.contains(GrepOption::CaseInsensitive),
            config.options.contains(GrepOption::Word),
        )?;
        GrepResult::scan(sources, &queries, config)
    }

    /// Renders the result as one text: the number of lines where the
    /// configuration asks for a count, else the lines, with line numbers
    /// where it asks for them.
    pub fn to_string(&self, config: &GrepConfig) -> (s: String)
        ensures
            s@ == rendered_text(
                self@,
                config.options@.contains(GrepOption::LineNumber),
                config.options@.contains(GrepOption::Count),
            ),
    {
        let lines = self.to_lines(config.options.contains(GrepOption::LineNumber));
        if config.options.contains(GrepOption::Count) {
            return decimal_string(lines.len());
        }
        join_lines(&lines)
    }

    /// Renders the result line by line.
    pub fn to_lines(&self, is_with_line_num: bool) -> (matches: Vec<String>)
        ensures
            texts(matches@) == rendered_lines(self@, is_with_line_num),
    {
        let with_name = self.file_results.len() > 1;
        let mut matches: Vec<String> = Vec::new();
        let mut f: usize = 0;
        assert(texts(matches@) =~= rendered_files(self@, with_name, is_with_line_num, 0));
        while f < self.file_results.len()
            invariant
                f <= self.file_results@.len(),
                with_name == (self@.len() > 1),
                texts(matches@) == rendered_files(self@, with_name, is_with_line_num, f as int),
            decreases self.file_results@.len() - f,
        {
            let file_result = &self.file_results[f];
            let ghost done = texts(matches@);
            let ghost target = rendered_file(file_result@, with_name, is_with_line_num);
            let mut i: usize = 0;
            assert(texts(matches@) =~= done + target.take(0));
            while i < file_result.lines.len()
                invariant
                    i <= file_result.lines@.len(),
                    target == rendered_file(file_result@, with_name, is_with_line_num),
                    texts(matches@) == done + target.take(i as int),
                decreases file_result.lines@.len() - i,
            {
                let line = &file_result.lines[i];
                let mut hinted_line = String::new();
                proof {
                    reveal_strlit(":");
                }
                if with_name {
                    hinted_line.append(file_result.file_name.as_str());
                    hinted_line.append(":");
                }
                if is_with_line_num {
                    push_decimal(&mut hinted_line, line.line_number);
                    hinted_line.append(":");
                }
                hinted_line.append(line.text.as_str());
                assert(hinted_line@ =~= target[i as int]);
                let ghost sofar = texts(matches@);
                matches.push(hinted_line);
                assert(texts(matches@) =~= sofar.push(target[i as int]));
                assert(done + target.take(i + 1) =~= (done + target.take(i as int)).push(
                    target[i as int],
                ));
                i = i + 1;
            }
            assert(target.take(i as int) =~= target);
            assert(self@[f as int] == file_result@);
            f = f + 1;
        }
        matches
    }
}

/// A search without context lines shows exactly the selected lines of the
/// file, in their order and with their text as it stands in the file.
pub proof fn law_plain_search_shows_selected(
    bytes: Seq<u8>,
    patterns: Seq<Seq<char>>,
    case_insensitive: bool,
    invert: bool,
)
    ensures
        scanned_lines(bytes, patterns, case_insensitive, invert, 0, 0) == selected_items(
            file_lines(bytes),
            file_marks(bytes, patterns, case_insensitive, invert),
            file_lines(bytes).len() as int,
        ),
{
    law_no_context_shows_selected(
        file_lines(bytes),
        file_marks(bytes, patterns, case_insensitive, invert),
    );
}

/// Rendering depends on the result and on the two flags alone: two
/// renderings of one result under configurations that agree on line numbers
/// and on counting are the same text.
pub proof fn law_render_idempotent(
    result: GrepResult,
    first_config: GrepConfig,
    second_config: GrepConfig,
    first: String,
    second: String,
)
    requires
        first_config.options@.contains(GrepOption::LineNumber) == second_config.options@.contains(
            GrepOption::LineNumber,
        ),
        first_config.options@.contains(GrepOption::Count) == second_config.options@.contains(
            GrepOption::Count,
        ),
        first@ == rendered_text(
            result@,
            first_config.options@.contains(GrepOption::LineNumber),
            first_config.options@.contains(GrepOption::Count),
        ),
        second@ == rendered_text(
            result@,
            second_config.options@.contains(GrepOption::LineNumber),
            second_config.options@.contains(GrepOption::Count),
        ),
    ensures
        first@ == second@,
{
}

/// Each of the rendered lines of the first `n` files renders one line of one
/// of these files.
proof fn lemma_rendered_line_origin(
    files: Seq<FileView>,
    with_name: bool,
    with_number: bool,
    n: int,
    k: int,
) -> (origin: (int, int))
    requires
        0 <= n <= files.len(),
        0 <= k < rendered_files(files, with_name, with_number, n).len(),
    ensures
        0 <= origin.0 < n,
        0 <= origin.1 < files[origin.0].lines.len(),
        rendered_files(files, with_name, with_number, n)[k] == rendered_line(
            files[origin.0].name,
            with_name,
            files[origin.0].lines[origin.1],
            with_number,
        ),
    decreases n,
{
    let earlier = rendered_files(files, with_name, with_number, n - 1);
    if k < earlier.len() {
        lemma_rendered_line_origin(files, with_name, with_number, n - 1, k)
    } else {
        (n - 1, k - earlier.len())
    }
}

/// The number of rendered lines is the number of lines, whatever is shown
/// with them.
proof fn lemma_rendered_count(
    files: Seq<FileView>,
    with_name: bool,
    with_number: bool,
    other_name: bool,
    other_number: bool,
    n: int,
)
    ensures
        rendered_files(files, with_name, with_number, n).len() == rendered_files(
            files,
            other_name,
            other_number,
            n,
        ).len(),
    decreases n,
{
    if n > 0 {
        lemma_rendered_count(files, with_name, with_number, other_name, other_number, n - 1);
    }
}

/// The result of a single file is rendered without the file's name: line `k`
/// is the line number and a colon, where line numbers are shown, and the
/// text.
pub proof fn law_single_file_has_no_name(files: Seq<FileView>, with_number: bool, k: int)
    requires
        files.len() == 1,
        0 <= k < files[0].lines.len(),
    ensures
        rendered_lines(files, with_number).len() == files[0].lines.len(),
        rendered_lines(files, with_number)[k] == if with_number {
            decimal(files[0].lines[k].number).push(':') + files[0].lines[k].text
        } else {
            files[0].lines[k].text
        },
{
    let file = rendered_file(files[0], false, with_number);
    assert(rendered_files(files, false, with_number, 0) =~= Seq::<Seq<char>>::empty());
    assert(rendered_files(files, false, with_number, 1) =~= file);
    let line = files[0].lines[k];
    assert(rendered_line(files[0].name, false, line, with_number) =~= if with_number {
        decimal(line.number).push(':') + line.text
    } else {
        line.text
    });
}

/// In the result of several files every rendered line renders a line of one
/// of the files, and starts with that file's name and a colon.
pub proof fn law_many_files_have_names(files: Seq<FileView>, with_number: bool, k: int) -> (origin:
    (int, int))
    requires
        files.len() > 1,
        0 <= k < rendered_lines(files, with_number).len(),
    ensures
        0 <= origin.0 < files.len(),
        0 <= origin.1 < files[origin.0].lines.len(),
        rendered_lines(files, with_number)[k] == rendered_line(
            files[origin.0].name,
            true,
            files[origin.0].lines[origin.1],
            with_number,
        ),
        files[origin.0].name.push(':').is_prefix_of(rendered_lines(files, with_number)[k]),
{
    let origin = lemma_rendered_line_origin(files, true, with_number, files.len() as int, k);
    let name = files[origin.0].name;
    let line = files[origin.0].lines[origin.1];
    let rendered = rendered_line(name, true, line, with_number);
    assert(rendered.subrange(0, name.push(':').len() as int) =~= name.push(':'));
    origin
}

/// The text of a count is the number of rendered lines in decimal digits,
/// whether or not the lines would show their numbers.
pub proof fn law_count_is_number_of_lines(
    files: Seq<FileView>,
    with_number: bool,
    lines_with_number: bool,
)
    ensures
        rendered_text(files, with_number, true) == decimal(
            rendered_lines(files, lines_with_number).len(),
        ),
{
    lemma_rendered_count(
        files,
        files.len() > 1,
        with_number,
        files.len() > 1,
        lines_with_number,
        files.len() as int,
    );
}

} // verus!
