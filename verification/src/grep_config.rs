//! What a search is asked to do: the options, the queries, the files and the
//! number of context lines.

use crate::text::{parse_number, parsed_number, texts};
use vstd::prelude::*;
use vstd::utf8::encode_utf8;

verus! {

/// A switch of the search.
#[derive(Debug, Clone, Copy, PartialEq, Eq, Hash, Structural)]
pub enum GrepOption {
    /// Ignore case in the queries and in the lines (`i`).
    CaseInsensitive,
    /// Match whole words only (`w`).
    Word,
    /// Select the lines that do not match (`v`).
    Invert,
    /// Put the line number before each line (`n`).
    LineNumber,
    /// Give the number of lines in place of the lines (`c`).
    Count,
}

/// A set of options.
#[derive(Debug, Clone, Copy, PartialEq, Eq)]
pub struct OptionSet {
    case_insensitive: bool,
    word: bool,
    invert: bool,
    line_number: bool,
    count: bool,
}

impl View for OptionSet {
    type V = Set<GrepOption>;

    closed spec fn view(&self) -> Set<GrepOption> {
        Set::new(
            |o: GrepOption|
                match o {
                    GrepOption::CaseInsensitive => self.case_insensitive,
                    GrepOption::Word => self.word,
                    GrepOption::Invert => self.invert,
                    GrepOption::LineNumber => self.line_number,
                    GrepOption::Count => self.count,
                },
        )
    }
}

impl OptionSet {
    /// The empty set.
    pub fn new() -> (s: OptionSet)
        ensures
            s@ == Set::<GrepOption>::empty(),
    {
        let s = OptionSet {
            case_insensitive: false,
            word: false,
            invert: false,
            line_number: false,
            count: false,
        };
        assert(s@ =~= Set::<GrepOption>::empty());
        s
    }

    /// Adds an option; the result says whether it was not yet in the set.
    pub fn insert(&mut self, option: GrepOption) -> (added: bool)
        ensures
            final(self)@ == old(self)@.insert(option),
            added == !old(self)@.contains(option),
    {
        let added = !self.contains(option);
        match option {
            GrepOption::CaseInsensitive => {
                self.case_insensitive = true;
            },
            GrepOption::Word => {
                self.word = true;
            },
            GrepOption::Invert => {
                self.invert = true;
            },
            GrepOption::LineNumber => {
                self.line_number = true;
            },
            GrepOption::Count => {
                self.count = true;
            },
        }
        assert(self@ =~= old(self)@.insert(option));
        added
    }

    /// Whether the option is in the set.
    pub fn contains(&self, option: GrepOption) -> (b: bool)
        ensures
            b == self@.contains(option),
    {
        match option {
            GrepOption::CaseInsensitive => self.case_insensitive,
            GrepOption::Word => self.word,
            GrepOption::Invert => self.invert,
            GrepOption::LineNumber => self.line_number,
            GrepOption::Count => self.count,
        }
    }

    /// The set of the given options.
    pub fn from_options(options: &Vec<GrepOption>) -> (s: OptionSet)
        ensures
            s@ == options@.to_set(),
    {
        let mut s = OptionSet::new();
        let mut i: usize = 0;
        while i < options.len()
            invariant
                i <= options.len(),
                s@ == options@.take(i as int).to_set(),
            decreases options.len() - i,
        {
            let _ = s.insert(options[i]);
            assert(options@.take(i + 1).to_set() =~= options@.take(i as int).to_set().insert(
                options@[i as int],
            )) by {
                let shorter = options@.take(i as int);
                let longer = options@.take(i + 1);
                assert(longer =~= shorter.push(options@[i as int]));
                assert forall|o: GrepOption| longer.to_set().contains(o) implies shorter.to_set().insert(
                    options@[i as int],
                ).contains(o) by {
                    let j = choose|j: int| 0 <= j < longer.len() && longer[j] == o;
                    if j < i {
                        assert(shorter[j] == o);
                    }
                }
                assert forall|o: GrepOption|
                    shorter.to_set().insert(options@[i as int]).contains(
                        o,
                    ) implies longer.to_set().contains(o) by {
                    if o == options@[i as int] {
                        assert(longer[i as int] == o);
                    } else {
                        let j = choose|j: int| 0 <= j < shorter.len() && shorter[j] == o;
                        assert(longer[j] == o);
                    }
                }
            }
            i = i + 1;
        }
        assert(options@.take(i as int) =~= options@);
        s
    }
}

/// Why a command line is no configuration.
#[derive(Debug, PartialEq, Eq)]
pub enum ConfigError {
    /// A letter behind `-` that names no option.
    UnknownOption(String),
    /// Something is missing; the text says what.
    MissingArg(String),
    /// Arguments follow the file name.
    TooManyArgs,
    /// The file name names no file.
    Filename(String),
    /// The number of context lines is no number.
    IllegalOptionValue(String),
}

/// The configuration of one search.
#[derive(Debug, PartialEq, Eq)]
pub struct GrepConfig {
    /// The switches.
    pub options: OptionSet,
    /// The raw queries; a line is a hit when it matches any of them.
    pub queries: Vec<String>,
    /// The files to search, in this order.
    pub filenames: Vec<String>,
    /// The number of context lines before a selected line.
    pub num_pre_lines: usize,
    /// The number of context lines after a selected line.
    pub num_post_lines: usize,
}

/// An error with its texts as sequences of characters.
pub enum ConfigErrorView {
    UnknownOption(Seq<char>),
    MissingArg(Seq<char>),
    TooManyArgs,
    Filename(Seq<char>),
    IllegalOptionValue(Seq<char>),
}

impl View for ConfigError {
    type V = ConfigErrorView;

    open spec fn view(&self) -> ConfigErrorView {
        match self {
            ConfigError::UnknownOption(letter) => ConfigErrorView::UnknownOption(letter@),
            ConfigError::MissingArg(what) => ConfigErrorView::MissingArg(what@),
            ConfigError::TooManyArgs => ConfigErrorView::TooManyArgs,
            ConfigError::Filename(name) => ConfigErrorView::Filename(name@),
            ConfigError::IllegalOptionValue(value) => ConfigErrorView::IllegalOptionValue(value@),
        }
    }
}

/// A configuration with its texts as sequences of characters.
pub struct ConfigView {
    pub options: Set<GrepOption>,
    pub queries: Seq<Seq<char>>,
    pub filenames: Seq<Seq<char>>,
    pub num_pre_lines: nat,
    pub num_post_lines: nat,
}

impl View for GrepConfig {
    type V = ConfigView;

    open spec fn view(&self) -> ConfigView {
        ConfigView {
            options: self.options@,
            queries: texts(self.queries@),
            filenames: texts(self.filenames@),
            num_pre_lines: self.num_pre_lines as nat,
            num_post_lines: self.num_post_lines as nat,
        }
    }
}

impl ConfigView {
    /// The configuration before anything is read from the command line.
    pub open spec fn empty() -> ConfigView {
        ConfigView {
            options: Set::empty(),
            queries: Seq::empty(),
            filenames: Seq::empty(),
            num_pre_lines: 0,
            num_post_lines: 0,
        }
    }

    /// The configuration with one more option.
    pub open spec fn with_option(self, option: GrepOption) -> ConfigView {
        ConfigView { options: self.options.insert(option), ..self }
    }

    /// The configuration with one more query.
    pub open spec fn with_query(self, query: Seq<char>) -> ConfigView {
        ConfigView { queries: self.queries.push(query), ..self }
    }

    /// The configuration with the number of context lines that the letter
    /// sets: `A` the lines after, `B` the lines before, `C` both.
    pub open spec fn with_context(self, letter: char, size: nat) -> ConfigView {
        if letter == 'A' {
            ConfigView { num_post_lines: size, ..self }
        } else if letter == 'B' {
            ConfigView { num_pre_lines: size, ..self }
        } else {
            ConfigView { num_pre_lines: size, num_post_lines: size, ..self }
        }
    }

    /// There is a query to search for and a file to search.
    pub open spec fn wf(self) -> bool {
        self.queries.len() > 0 && self.filenames.len() > 0
    }
}

/// The option that a letter switches on, if it is the letter of a switch.
pub open spec fn flag_option(letter: char) -> Option<GrepOption> {
    if letter == 'i' {
        Some(GrepOption::CaseInsensitive)
    } else if letter == 'w' {
        Some(GrepOption::Word)
    } else if letter == 'v' {
        Some(GrepOption::Invert)
    } else if letter == 'n' {
        Some(GrepOption::LineNumber)
    } else if letter == 'c' {
        Some(GrepOption::Count)
    } else {
        None
    }
}

/// The letter sets a number of context lines.
pub open spec fn is_context_letter(letter: char) -> bool {
    letter == 'A' || letter == 'B' || letter == 'C'
}

/// The argument holds options: its first byte is `-`.
pub open spec fn is_option_arg(arg: Seq<char>) -> bool {
    let bytes = encode_utf8(arg);
    bytes.len() > 0 && bytes[0] as char == '-'
}

/// Reads the arguments from index `a` on while they hold options. The result
/// is the configuration and the index of the first argument that holds none.
pub open spec fn options_from(args: Seq<Seq<char>>, a: int, config: ConfigView) -> Result<
    (ConfigView, int),
    ConfigErrorView,
>
    decreases args.len() - a, 1nat, 0nat,
{
    if a < 0 || a >= args.len() {
        Err(ConfigErrorView::MissingArg("query"@))
    } else if is_option_arg(args[a]) {
        flags_from(args, a, 1, a, config)
    } else {
        Ok((config, a))
    }
}

/// Reads the option letters of argument `a` from its byte `i` on, letter by
/// letter as bytes. `e` takes the next argument as a query; `A`, `B` and `C`
/// take it as a number of context lines. `last` is the index of the last
/// argument that was taken.
pub open spec fn flags_from(
    args: Seq<Seq<char>>,
    a: int,
    i: int,
    last: int,
    config: ConfigView,
) -> Result<(ConfigView, int), ConfigErrorView>
    decreases args.len() - last, 0nat, encode_utf8(args[a]).len() - i,
    when 0 <= a <= last < args.len() && 0 <= i
{
    let flags = encode_utf8(args[a]);
    if i >= flags.len() {
        options_from(args, last + 1, config)
    } else {
        let letter = flags[i] as char;
        if flag_option(letter) is Some {
            flags_from(args, a, i + 1, last, config.with_option(flag_option(letter)->0))
        } else if letter == 'e' {
            if last + 1 >= args.len() {
                Err(ConfigErrorView::MissingArg("query"@))
            } else {
                flags_from(args, a, i + 1, last + 1, config.with_query(args[last + 1]))
            }
        } else if is_context_letter(letter) {
            if last + 1 >= args.len() {
                Err(ConfigErrorView::MissingArg("number"@))
            } else {
                match parsed_number(args[last + 1]) {
                    Some(size) => flags_from(
                        args,
                        a,
                        i + 1,
                        last + 1,
                        config.with_context(letter, size as nat),
                    ),
                    None => Err(ConfigErrorView::IllegalOptionValue(args[last + 1])),
                }
            }
        } else {
            Err(ConfigErrorView::UnknownOption(seq![letter]))
        }
    }
}

/// What a command line says before any file is looked up.
pub struct CommandLine {
    /// The options and queries; no file names yet.
    pub config: GrepConfig,
    /// The argument that names the files to search; it may hold wildcards.
    pub file_operand: String,
    /// Arguments follow the file operand.
    pub too_many: bool,
}

/// A command line with its texts as sequences of characters.
pub struct CommandView {
    pub config: ConfigView,
    pub file_operand: Seq<char>,
    pub too_many: bool,
}

impl View for CommandLine {
    type V = CommandView;

    open spec fn view(&self) -> CommandView {
        CommandView {
            config: self.config@,
            file_operand: self.file_operand@,
            too_many: self.too_many,
        }
    }
}

/// What the arguments say. The first argument is the program's name. Options
/// come first. Of what follows, the last argument names the files; where two
/// or more arguments follow the options, the first of them is a query and the
/// second names the files.
pub open spec fn parsed_command(args: Seq<Seq<char>>) -> Result<CommandView, ConfigErrorView> {
    match options_from(args, 1, ConfigView::empty()) {
        Err(e) => Err(e),
        Ok((config, a)) => {
            if a < args.len() - 1 {
                Ok(
                    CommandView {
                        config: config.with_query(args[a]),
                        file_operand: args[a + 1],
                        too_many: a + 2 != args.len(),
                    },
                )
            } else {
                Ok(CommandView { config, file_operand: args[a], too_many: false })
            }
        },
    }
}

/// The texts of the files that were found, if the lookup found the file
/// operand.
pub open spec fn found_texts(found: Option<Vec<String>>) -> Option<Seq<Seq<char>>> {
    match found {
        Some(files) => Some(texts(files@)),
        None => None,
    }
}

/// The configuration that a command line gives once the files are looked up.
/// A file operand that names no file is refused first, then arguments behind
/// it, then a command line without a query.
pub open spec fn finished(line: CommandView, found: Option<Seq<Seq<char>>>) -> Result<
    ConfigView,
    ConfigErrorView,
> {
    match found {
        None => Err(ConfigErrorView::Filename(line.file_operand)),
        Some(files) => {
            if line.too_many {
                Err(ConfigErrorView::TooManyArgs)
            } else if line.config.queries.len() == 0 {
                Err(ConfigErrorView::MissingArg("query"@))
            } else {
                Ok(ConfigView { filenames: files, ..line.config })
            }
        },
    }
}

/// The configuration that the arguments give, where `found` is what the
/// lookup of the file operand gave.
pub open spec fn configured(args: Seq<Seq<char>>, found: Option<Seq<Seq<char>>>) -> Result<
    ConfigView,
    ConfigErrorView,
> {
    match parsed_command(args) {
        Err(e) => Err(e),
        Ok(line) => finished(line, found),
    }
}

/// Whether the argument holds options.
fn holds_options(arg: &str) -> (b: bool)
    ensures
        b == is_option_arg(arg@),
{
    let bytes = arg.as_bytes();
    bytes.len() > 0 && bytes[0] as char == '-'
}

/// The option that a letter switches on.
fn option_of(letter: char) -> (o: Option<GrepOption>)
    ensures
        o == flag_option(letter),
{
    if letter == 'i' {
        Some(GrepOption::CaseInsensitive)
    } else if letter == 'w' {
        Some(GrepOption::Word)
    } else if letter == 'v' {
        Some(GrepOption::Invert)
    } else if letter == 'n' {
        Some(GrepOption::LineNumber)
    } else if letter == 'c' {
        Some(GrepOption::Count)
    } else {
        None
    }
}

impl GrepConfig {
    /// There is a query to search for and a file to search.
    pub open spec fn wf(&self) -> bool {
        self@.wf()
    }

    /// Reads the options of argument `a`, letter by letter.
    fn read_flags(&mut self, args: &Vec<String>, a: usize) -> (r: Result<usize, ConfigError>)
        requires
            a < args.len(),
            is_option_arg(args[a as int]@),
        ensures
            match r {
                Ok(last) => {
                    &&& a <= last < args.len()
                    &&& flags_from(texts(args@), a as int, 1, a as int, old(self)@) == options_from(
                        texts(args@),
                        last + 1,
                        final(self)@,
                    )
                },
                Err(e) => flags_from(texts(args@), a as int, 1, a as int, old(self)@) == Err::<
                    (ConfigView, int),
                    ConfigErrorView,
                >(e@),
            },
    {
        let ghost all = texts(args@);
        let flags = args[a].as_str().as_bytes();
        let mut last: usize = a;
        let mut i: usize = 1;
        while i < flags.len()
            invariant
                all == texts(args@),
                flags@ == encode_utf8(all[a as int]),
                a <= last < args.len(),
                1 <= i <= flags@.len(),
                flags_from(all, a as int, 1, a as int, old(self)@) == flags_from(
                    all,
                    a as int,
                    i as int,
                    last as int,
                    self@,
                ),
            decreases flags@.len() - i,
        {
            let letter = flags[i] as char;
            let ghost before = self@;
            match option_of(letter) {
                Some(option) => {
                    let _ = self.options.insert(option);
                },
                None => {
                    if letter == 'e' {
                        if last + 1 >= args.len() {
                            return Err(ConfigError::MissingArg("query".to_owned()));
                        }
                        last = last + 1;
                        self.queries.push(args[last].clone());
                        assert(self@.queries =~= before.queries.push(all[last as int]));
                    } else if letter == 'A' || letter == 'B' || letter == 'C' {
                        if last + 1 >= args.len() {
                            return Err(ConfigError::MissingArg("number".to_owned()));
                        }
                        last = last + 1;
                        let size = match parse_number(args[last].as_str()) {
                            Some(size) => size,
                            None => {
                                return Err(ConfigError::IllegalOptionValue(args[last].clone()));
                            },
                        };
                        if letter == 'A' {
                            self.num_post_lines = size;
                        } else if letter == 'B' {
                            self.num_pre_lines = size;
                        } else {
                            self.num_pre_lines = size;
                            self.num_post_lines = size;
                        }
                    } else {
                        let mut unknown = String::new();
                        unknown.push(letter);
                        assert(unknown@ =~= seq![letter]);
                        return Err(ConfigError::UnknownOption(unknown));
                    }
                },
            }
            i = i + 1;
        }
        Ok(last)
    }

    /// Reads the command line as far as that goes without looking for files.
    pub fn parse(args: &Vec<String>) -> (r: Result<CommandLine, ConfigError>)
        ensures
            match r {
                Ok(line) => parsed_command(texts(args@)) == Ok::<CommandView, ConfigErrorView>(
                    line@,
                ),
                Err(e) => parsed_command(texts(args@)) == Err::<CommandView, ConfigErrorView>(e@),
            },
    {
        let ghost all = texts(args@);
        let mut config = GrepConfig {
            options: OptionSet::new(),
            queries: Vec::new(),
            filenames: Vec::new(),
            num_pre_lines: 0,
            num_post_lines: 0,
        };
        assert(config@.queries =~= Seq::<Seq<char>>::empty());
        assert(config@.filenames =~= Seq::<Seq<char>>::empty());
        let mut a: usize = 1;
        while a < args.len() && holds_options(args[a].as_str())
            invariant
                all == texts(args@),
                1 <= a,
                options_from(all, 1, ConfigView::empty()) == options_from(all, a as int, config@),
            decreases args.len() - a,
        {
            match config.read_flags(args, a) {
                Ok(last) => {
                    a = last + 1;
                },
                Err(e) => {
                    return Err(e);
                },
            }
        }
        if a >= args.len() {
            return Err(ConfigError::MissingArg("query".to_owned()));
        }
        if a < args.len() - 1 {
            let ghost before = config@;
            config.queries.push(args[a].clone());
            assert(config@.queries =~= before.queries.push(all[a as int]));
            Ok(
                CommandLine {
                    config,
                    file_operand: args[a + 1].clone(),
                    too_many: a + 2 != args.len(),
                },
            )
        } else {
            Ok(CommandLine { config, file_operand: args[a].clone(), too_many: false })
        }
    }

    /// Completes the configuration with the files that the lookup of the file
    /// operand found, or with `None` where it names no file. A lookup that
    /// finds no file at all must not end in a configuration.
    pub fn finish(line: CommandLine, found: Option<Vec<String>>) -> (r: Result<
        GrepConfig,
        ConfigError,
    >)
        requires
            found matches Some(files) && files@.len() == 0 ==> line.too_many
                || line.config.queries@.len() == 0,
        ensures
            match r {
                Ok(config) => config.wf() && finished(line@, found_texts(found)) == Ok::<
                    ConfigView,
                    ConfigErrorView,
                >(config@),
                Err(e) => finished(line@, found_texts(found)) == Err::<ConfigView, ConfigErrorView>(
                    e@,
                ),
            },
    {
        match found {
            None => Err(ConfigError::Filename(line.file_operand)),
            Some(files) => {
                if line.too_many {
                    Err(ConfigError::TooManyArgs)
                } else if line.config.queries.len() == 0 {
                    Err(ConfigError::MissingArg("query".to_owned()))
                } else {
                    let mut config = line.config;
                    config.filenames = files;
                    Ok(config)
                }
            },
        }
    }

    /// Reads the command line. `found` is what the lookup of the file operand
    /// gave: the files, or `None` where the operand names no file. The lookup
    /// must have found a file wherever the command line is otherwise in
    /// order.
    pub fn new(args: &Vec<String>, found: Option<Vec<String>>) -> (r: Result<GrepConfig, ConfigError>)
        requires
            found matches Some(files) && files@.len() == 0 ==> !(configured(
                texts(args@),
                found_texts(found),
            ) is Ok),
        ensures
            match r {
                Ok(config) => config.wf() && configured(texts(args@), found_texts(found)) == Ok::<
                    ConfigView,
                    ConfigErrorView,
                >(config@),
                Err(e) => configured(texts(args@), found_texts(found)) == Err::<
                    ConfigView,
                    ConfigErrorView,
                >(e@),
            },
    {
        match GrepConfig::parse(args) {
            Err(e) => Err(e),
            Ok(line) => GrepConfig::finish(line, found),
        }
    }
}

} // verus!
