//! The command line tool: its options, the request it makes, and what it prints.

use vstd::prelude::*;
use vstd::string::*;

use crate::event::{EventView, SseEvent};
use crate::json;
use crate::json::ExtractMode;
use crate::text;

verus! {

/// What the command line asks for.
#[derive(Debug, PartialEq, Eq, Clone)]
pub struct Args {
    /// Where to send a request; standard input is read if there is none.
    pub url: Option<String>,
    /// The headers of the request.
    pub headers: Vec<(String, String)>,
    /// The body of the request.
    pub data: Option<String>,
    /// Where the text of a payload is looked for.
    pub extract: ExtractMode,
    /// Whether payloads are printed as they are.
    pub raw: bool,
    /// Whether event types and comments are shown.
    pub verbose: bool,
}

/// The texts of [`Args`].
#[verifier::ext_equal]
pub struct ArgsView {
    pub url: Option<Seq<char>>,
    pub headers: Seq<(Seq<char>, Seq<char>)>,
    pub data: Option<Seq<char>>,
    pub extract: ExtractMode,
    pub raw: bool,
    pub verbose: bool,
}

/// The texts of a list of headers.
pub open spec fn header_texts(headers: Seq<(String, String)>) -> Seq<(Seq<char>, Seq<char>)> {
    headers.map_values(|header: (String, String)| (header.0@, header.1@))
}

impl View for Args {
    type V = ArgsView;

    open spec fn view(&self) -> ArgsView {
        ArgsView {
            url: text::optional(self.url),
            headers: header_texts(self.headers@),
            data: text::optional(self.data),
            extract: self.extract,
            raw: self.raw,
            verbose: self.verbose,
        }
    }
}

/// The arguments of an empty command line.
pub open spec fn no_args() -> ArgsView {
    ArgsView {
        url: None,
        headers: Seq::empty(),
        data: None,
        extract: ExtractMode::Auto,
        raw: false,
        verbose: false,
    }
}

impl Default for Args {
    fn default() -> (args: Self)
        ensures
            args@ == no_args(),
    {
        let args = Args {
            url: None,
            headers: Vec::new(),
            data: None,
            extract: ExtractMode::Auto,
            raw: false,
            verbose: false,
        };
        assert(args@ =~= no_args());
        args
    }
}

/// An option of the command line.
#[derive(Debug, Clone, Copy, PartialEq, Eq, Structural)]
pub enum Flag {
    Help,
    Url,
    Header,
    Data,
    Extract,
    Raw,
    Verbose,
    /// Anything else.
    Unknown,
}

/// The option that an argument stands for.
pub open spec fn flag_of(arg: Seq<char>) -> Flag {
    if arg == "--help"@ || arg == "-h"@ {
        Flag::Help
    } else if arg == "--url"@ {
        Flag::Url
    } else if arg == "--header"@ || arg == "-H"@ {
        Flag::Header
    } else if arg == "--data"@ || arg == "-d"@ {
        Flag::Data
    } else if arg == "--extract"@ {
        Flag::Extract
    } else if arg == "--raw"@ {
        Flag::Raw
    } else if arg == "--verbose"@ || arg == "-v"@ {
        Flag::Verbose
    } else {
        Flag::Unknown
    }
}

/// Whether the argument behind an option belongs to it.
pub open spec fn takes_value(flag: Flag) -> bool {
    flag is Url || flag is Header || flag is Data || flag is Extract
}

/// The mode that a value of `--extract` stands for.
pub open spec fn mode_of(mode: Seq<char>) -> Option<ExtractMode> {
    if mode == "openai"@ {
        Some(ExtractMode::OpenAI)
    } else if mode == "anthropic"@ {
        Some(ExtractMode::Anthropic)
    } else if mode == "ollama"@ {
        Some(ExtractMode::Ollama)
    } else if mode == "auto"@ {
        Some(ExtractMode::Auto)
    } else {
        None
    }
}

/// The name and the value of a header, which the first colon parts; none without a colon.
pub open spec fn header_of(header: Seq<char>) -> Option<(Seq<char>, Seq<char>)> {
    if header.contains(':') {
        let at = header.index_of_first(':')->0;
        Some((text::trimmed(header.take(at)), text::trimmed(header.skip(at + 1))))
    } else {
        None
    }
}

/// What becomes of a command line.
pub enum Outcome {
    /// The tool runs.
    Run(ArgsView),
    /// The usage is shown.
    Help,
    /// The command line is refused, with a message.
    Refused(Seq<char>),
    /// An option that takes a value has none.
    NoValue,
}

/// The arguments with an option, and the value behind it, added.
pub open spec fn with_flag(args: ArgsView, flag: Flag, value: Seq<char>) -> ArgsView {
    match flag {
        Flag::Url => ArgsView { url: Some(value), ..args },
        Flag::Header => match header_of(value) {
            Some(header) => ArgsView { headers: args.headers.push(header), ..args },
            None => args,
        },
        Flag::Data => ArgsView { data: Some(value), ..args },
        Flag::Extract => match mode_of(value) {
            Some(mode) => ArgsView { extract: mode, ..args },
            None => args,
        },
        Flag::Raw => ArgsView { raw: true, ..args },
        Flag::Verbose => ArgsView { verbose: true, ..args },
        Flag::Help | Flag::Unknown => args,
    }
}

/// Reads a command line from left to right, up to the end or to the first argument that asks
/// for help or is refused.
pub open spec fn outcome_of(args: ArgsView, argv: Seq<Seq<char>>) -> Outcome
    decreases argv.len(),
{
    if argv.len() == 0 {
        Outcome::Run(args)
    } else {
        let flag = flag_of(argv[0]);
        if flag is Help {
            Outcome::Help
        } else if flag is Unknown {
            Outcome::Refused("Unknown argument: "@ + argv[0])
        } else if !takes_value(flag) {
            outcome_of(with_flag(args, flag, Seq::empty()), argv.skip(1))
        } else if argv.len() == 1 {
            Outcome::NoValue
        } else if flag is Extract && mode_of(argv[1]) is None {
            Outcome::Refused("Unknown extract mode: "@ + argv[1])
        } else {
            outcome_of(with_flag(args, flag, argv[1]), argv.skip(2))
        }
    }
}

/// Whether an option that takes a value stands at the end of the command line without one, and
/// nothing in front of it ends the reading.
pub open spec fn lacks_value(argv: Seq<Seq<char>>) -> bool {
    outcome_of(no_args(), argv) is NoValue
}

/// Whether a value is missing does not depend on what was read before.
proof fn lemma_no_value(a: ArgsView, b: ArgsView, argv: Seq<Seq<char>>)
    ensures
        outcome_of(a, argv) is NoValue <==> outcome_of(b, argv) is NoValue,
    decreases argv.len(),
{
    if argv.len() > 0 {
        let flag = flag_of(argv[0]);
        let none = Seq::<char>::empty();
        if !takes_value(flag) {
            lemma_no_value(with_flag(a, flag, none), with_flag(b, flag, none), argv.skip(1));
        } else if argv.len() > 1 {
            lemma_no_value(with_flag(a, flag, argv[1]), with_flag(b, flag, argv[1]), argv.skip(2));
        }
    }
}

/// The command line is read from left to right: arguments that can be run with leave the rest
/// of the line to be read with them in force, and whatever else becomes of a line becomes of it
/// with any more arguments behind it, but for a value that was missing.
pub proof fn law_args_in_sequence(args: ArgsView, a: Seq<Seq<char>>, b: Seq<Seq<char>>)
    ensures
        match outcome_of(args, a) {
            Outcome::Run(read) => outcome_of(args, a + b) == outcome_of(read, b),
            Outcome::NoValue => true,
            ended => outcome_of(args, a + b) == ended,
        },
    decreases a.len(),
{
    let all = a + b;
    if a.len() == 0 {
        assert(all =~= b);
    } else {
        let flag = flag_of(a[0]);
        assert(all[0] == a[0]);
        if !takes_value(flag) {
            law_args_in_sequence(with_flag(args, flag, Seq::empty()), a.skip(1), b);
            assert(all.skip(1) =~= a.skip(1) + b);
        } else if a.len() > 1 {
            assert(all[1] == a[1]);
            law_args_in_sequence(with_flag(args, flag, a[1]), a.skip(2), b);
            assert(all.skip(2) =~= a.skip(2) + b);
        }
    }
}

/// Calls `str::split_once` with a character: the parts of the text in front of and behind the
/// first occurrence of the delimiter, if it occurs.
#[verifier::external_body]
fn split_once(s: &str, delimiter: char) -> (parts: Option<(&str, &str)>)
    ensures
        match parts {
            Some((front, back)) => {
                &&& s@ == front@.push(delimiter) + back@
                &&& !front@.contains(delimiter)
            },
            None => !s@.contains(delimiter),
        },
{
    s.split_once(delimiter)
}

/// Tells which option an argument stands for.
pub fn read_flag(arg: &str) -> (flag: Flag)
    ensures
        flag == flag_of(arg@),
{
    if text::same_text(arg, "--help") || text::same_text(arg, "-h") {
        Flag::Help
    } else if text::same_text(arg, "--url") {
        Flag::Url
    } else if text::same_text(arg, "--header") || text::same_text(arg, "-H") {
        Flag::Header
    } else if text::same_text(arg, "--data") || text::same_text(arg, "-d") {
        Flag::Data
    } else if text::same_text(arg, "--extract") {
        Flag::Extract
    } else if text::same_text(arg, "--raw") {
        Flag::Raw
    } else if text::same_text(arg, "--verbose") || text::same_text(arg, "-v") {
        Flag::Verbose
    } else {
        Flag::Unknown
    }
}

/// Tells which mode a value of `--extract` stands for.
pub fn read_mode(mode: &str) -> (result: Option<ExtractMode>)
    ensures
        result == mode_of(mode@),
{
    if text::same_text(mode, "openai") {
        Some(ExtractMode::OpenAI)
    } else if text::same_text(mode, "anthropic") {
        Some(ExtractMode::Anthropic)
    } else if text::same_text(mode, "ollama") {
        Some(ExtractMode::Ollama)
    } else if text::same_text(mode, "auto") {
        Some(ExtractMode::Auto)
    } else {
        None
    }
}

/// Parts a header into its name and its value.
pub fn read_header(header: &str) -> (result: Option<(String, String)>)
    ensures
        match result {
            Some((name, value)) => header_of(header@) == Some((name@, value@)),
            None => header_of(header@) is None,
        },
{
    match split_once(header, ':') {
        Some((name, value)) => {
            proof {
                let at = name@.len() as int;
                header@.index_of_first_ensures(':');
                assert(header@[at] == ':');
                let first = header@.index_of_first(':')->0;
                if first < at {
                    assert(header@[first] == name@[first]);
                    assert(name@.contains(name@[first]));
                }
                assert(header@.take(at) =~= name@);
                assert(header@.skip(at + 1) =~= value@);
            }
            Some((name.trim().to_owned(), value.trim().to_owned()))
        },
        None => None,
    }
}

/// What the command line asks the tool to do.
#[derive(Debug, PartialEq, Eq, Clone)]
pub enum Command {
    /// Run with these arguments.
    Run(Args),
    /// Show the usage.
    Help,
}

/// Tells whether the command line ends with an option whose value is missing. Such a command
/// line cannot be parsed.
pub fn is_cut_off(argv: &Vec<String>) -> (cut_off: bool)
    ensures
        cut_off == lacks_value(text::texts(argv@)),
{
    let ghost all = text::texts(argv@);
    let mut i: usize = 0;
    assert(all.skip(0) =~= all);
    while i < argv.len()
        invariant
            i <= argv.len(),
            all == text::texts(argv@),
            lacks_value(all.skip(i as int)) == lacks_value(all),
        decreases argv.len() - i,
    {
        let ghost rest = all.skip(i as int);
        let flag = read_flag(argv[i].as_str());
        assert(rest[0] == argv@[i as int]@);
        match flag {
            Flag::Help | Flag::Unknown => {
                return false;
            },
            Flag::Raw | Flag::Verbose => {
                proof {
                    assert(rest.skip(1) =~= all.skip(i + 1));
                    lemma_no_value(
                        with_flag(no_args(), flag, Seq::empty()),
                        no_args(),
                        rest.skip(1),
                    );
                }
                i = i + 1;
            },
            Flag::Url | Flag::Header | Flag::Data | Flag::Extract => {
                if argv.len() - i == 1 {
                    return true;
                }
                assert(rest[1] == argv@[i + 1]@);
                if flag == Flag::Extract && read_mode(argv[i + 1].as_str()).is_none() {
                    return false;
                }
                proof {
                    assert(rest.skip(2) =~= all.skip(i + 2));
                    lemma_no_value(with_flag(no_args(), flag, rest[1]), no_args(), rest.skip(2));
                }
                i = i + 2;
            },
        }
    }
    false
}

/// Parses the command line, given without the name of the program.
pub fn parse_args(argv: &Vec<String>) -> (result: Result<Command, String>)
    requires
        !lacks_value(text::texts(argv@)),
    ensures
        match outcome_of(no_args(), text::texts(argv@)) {
            Outcome::Run(args) => result matches Ok(Command::Run(a)) && a@ == args,
            Outcome::Help => result == Ok::<Command, String>(Command::Help),
            Outcome::Refused(message) => result matches Err(m) && m@ == message,
            Outcome::NoValue => false,
        },
{
    let ghost all = text::texts(argv@);
    let mut args = Args::default();
    let mut i: usize = 0;
    assert(all.skip(0) =~= all);
    while i < argv.len()
        invariant
            i <= argv.len(),
            all == text::texts(argv@),
            !lacks_value(all),
            outcome_of(args@, all.skip(i as int)) == outcome_of(no_args(), all),
        decreases argv.len() - i,
    {
        let ghost rest = all.skip(i as int);
        let ghost before = args@;
        let flag = read_flag(argv[i].as_str());
        assert(rest[0] == argv@[i as int]@);
        match flag {
            Flag::Help => {
                return Ok(Command::Help);
            },
            Flag::Unknown => {
                let mut message = "Unknown argument: ".to_owned();
                message.append(argv[i].as_str());
                return Err(message);
            },
            Flag::Raw => {
                args.raw = true;
            },
            Flag::Verbose => {
                args.verbose = true;
            },
            _ => {
                assert(rest.len() > 1);
                assert(rest[1] == argv@[i + 1]@);
                let value = argv[i + 1].as_str();
                match flag {
                    Flag::Url => {
                        args.url = Some(value.to_owned());
                    },
                    Flag::Header => {
                        if let Some(header) = read_header(value) {
                            args.headers.push(header);
                        }
                    },
                    Flag::Data => {
                        args.data = Some(value.to_owned());
                    },
                    _ => match read_mode(value) {
                        Some(mode) => {
                            args.extract = mode;
                        },
                        None => {
                            let mut message = "Unknown extract mode: ".to_owned();
                            message.append(value);
                            return Err(message);
                        },
                    },
                }
                assert(args@ =~= with_flag(before, flag, rest[1]));
                assert(rest.skip(2) =~= all.skip(i + 2));
                i = i + 2;
                continue;
            },
        }
        assert(args@ =~= with_flag(before, flag, Seq::empty()));
        assert(rest.skip(1) =~= all.skip(i + 1));
        i = i + 1;
    }
    Ok(Command::Run(args))
}

/// An HTTP request.
#[derive(Debug, PartialEq, Eq, Clone)]
pub struct Request {
    /// Whether the method is POST; otherwise it is GET.
    pub post: bool,
    /// Where the request goes.
    pub url: String,
    /// The headers, in the order in which they are added.
    pub headers: Vec<(String, String)>,
    /// The body.
    pub body: Option<String>,
}

/// The texts of a [`Request`].
#[verifier::ext_equal]
pub struct RequestView {
    pub post: bool,
    pub url: Seq<char>,
    pub headers: Seq<(Seq<char>, Seq<char>)>,
    pub body: Option<Seq<char>>,
}

impl View for Request {
    type V = RequestView;

    open spec fn view(&self) -> RequestView {
        RequestView {
            post: self.post,
            url: self.url@,
            headers: header_texts(self.headers@),
            body: text::optional(self.body),
        }
    }
}

/// The request that the arguments ask for. A body makes it a POST request, and its type is
/// declared to be JSON.
pub open spec fn request_of(args: ArgsView) -> Option<RequestView> {
    match args.url {
        Some(url) => Some(
            RequestView {
                post: args.data is Some,
                url,
                headers: if args.data is Some {
                    args.headers.push(("Content-Type"@, "application/json"@))
                } else {
                    args.headers
                },
                body: args.data,
            },
        ),
        None => None,
    }
}

/// Makes up the request that the arguments ask for; without a URL there is none.
pub fn plan_request(args: &Args) -> (request: Option<Request>)
    ensures
        match request {
            Some(r) => request_of(args@) == Some(r@),
            None => request_of(args@) is None,
        },
        request is Some <==> args.url is Some,
        request matches Some(r) ==> {
            &&& r.url@ == args.url->0@
            &&& r.post <==> args.data is Some
            &&& r.body is Some <==> args.data is Some
            &&& args.data matches Some(data) ==> r.body->0@ == data@
            &&& r.headers@.len() == args.headers@.len() + (if args.data is Some {
                1int
            } else {
                0
            })
            &&& forall|i: int|
                #![trigger r.headers@[i]]
                0 <= i < args.headers@.len() ==> r.headers@[i].0@ == args.headers@[i].0@
                    && r.headers@[i].1@ == args.headers@[i].1@
        },
{
    let url = match &args.url {
        Some(url) => url.clone(),
        None => {
            return None;
        },
    };
    let mut headers: Vec<(String, String)> = Vec::new();
    let mut i: usize = 0;
    while i < args.headers.len()
        invariant
            i <= args.headers.len(),
            header_texts(headers@) == header_texts(args.headers@).take(i as int),
        decreases args.headers.len() - i,
    {
        let ghost before = headers@;
        let header = &args.headers[i];
        headers.push((header.0.clone(), header.1.clone()));
        assert(header_texts(headers@) =~= header_texts(before).push((header.0@, header.1@)));
        assert(header_texts(headers@) =~= header_texts(args.headers@).take(i + 1));
        i = i + 1;
    }
    assert(header_texts(headers@) =~= header_texts(args.headers@));
    let body = match &args.data {
        Some(data) => {
            headers.push(("Content-Type".to_owned(), "application/json".to_owned()));
            Some(data.clone())
        },
        None => None,
    };
    let request = Request { post: body.is_some(), url, headers, body };
    assert(request@ =~= request_of(args@)->0);
    proof {
        law_request(args@);
        law_request_headers(args@);
        law_args_view(*args);
        law_request_view(request);
        assert forall|i: int|
            #![trigger request.headers@[i]]
            0 <= i < args.headers@.len() implies request.headers@[i].0@ == args.headers@[i].0@
            && request.headers@[i].1@ == args.headers@[i].1@ by {
            assert(request@.headers[i] == args@.headers[i]);
        }
    }
    Some(request)
}

/// What is printed.
#[derive(Debug, PartialEq, Eq, Clone)]
pub enum Output {
    /// Nothing.
    Silent,
    /// This text on standard output.
    Stdout(String),
    /// This text on standard error.
    Stderr(String),
}

/// The text of an [`Output`].
pub enum OutputView {
    Silent,
    Stdout(Seq<char>),
    Stderr(Seq<char>),
}

impl View for Output {
    type V = OutputView;

    open spec fn view(&self) -> OutputView {
        match *self {
            Output::Silent => OutputView::Silent,
            Output::Stdout(s) => OutputView::Stdout(s@),
            Output::Stderr(s) => OutputView::Stderr(s@),
        }
    }
}

/// What the tool does about an event.
#[derive(Debug, PartialEq, Eq, Clone)]
pub struct Reaction {
    /// What is printed.
    pub output: Output,
    /// Whether the stream is left.
    pub stop: bool,
}

/// A line that shows a text under a label.
pub open spec fn labelled(label: Seq<char>, shown: Seq<char>) -> Seq<char> {
    "["@ + label + "] "@ + shown + "\n"@
}

/// What is printed for a payload: raw payloads as they are, each on a line; otherwise the text
/// that was extracted; otherwise, on request, the payload under a label.
pub open spec fn payload_output(
    label: Seq<char>,
    payload: Seq<char>,
    extracted: Option<Seq<char>>,
    raw: bool,
    verbose: bool,
) -> OutputView {
    if raw {
        OutputView::Stdout(payload + "\n"@)
    } else if extracted is Some {
        OutputView::Stdout(extracted->0)
    } else if verbose {
        OutputView::Stderr(labelled(label, payload))
    } else {
        OutputView::Silent
    }
}

/// What is printed for an event, given the text that was extracted from its payload.
pub open spec fn output_for(
    event: EventView,
    extracted: Option<Seq<char>>,
    raw: bool,
    verbose: bool,
) -> OutputView {
    match event {
        EventView::Data(data) => payload_output("data"@, data, extracted, raw, verbose),
        EventView::NamedData { event_type, data } => payload_output(
            event_type,
            data,
            extracted,
            raw,
            verbose,
        ),
        EventView::Done => if verbose {
            OutputView::Stderr("\n[done]\n"@)
        } else if !raw {
            OutputView::Stdout("\n"@)
        } else {
            OutputView::Silent
        },
        EventView::Comment(comment) => if verbose {
            OutputView::Stderr(labelled("comment"@, comment))
        } else {
            OutputView::Silent
        },
    }
}

/// The payload of an event.
pub open spec fn payload_of(event: EventView) -> Option<Seq<char>> {
    match event {
        EventView::Data(data) => Some(data),
        EventView::NamedData { event_type, data } => Some(data),
        _ => None,
    }
}

/// The text that is extracted from the payload of an event.
pub open spec fn extracted_from(event: EventView, mode: ExtractMode) -> Option<Seq<char>> {
    match payload_of(event) {
        Some(payload) => json::document_text(json::parsed(payload), mode),
        None => None,
    }
}

/// Writes a text under a label, on a line.
fn write_labelled(label: &str, shown: &str) -> (result: String)
    ensures
        result@ == labelled(label@, shown@),
{
    let mut result = "[".to_owned();
    result.append(label);
    result.append("] ");
    result.append(shown);
    result.append("\n");
    result
}

/// Decides what to print for a payload.
fn show_payload(
    label: &str,
    payload: &str,
    extracted: Option<String>,
    raw: bool,
    verbose: bool,
) -> (output: Output)
    ensures
        output@ == payload_output(label@, payload@, text::optional(extracted), raw, verbose),
{
    if raw {
        let mut shown = payload.to_owned();
        shown.append("\n");
        return Output::Stdout(shown);
    }
    match extracted {
        Some(found) => Output::Stdout(found),
        None => if verbose {
            Output::Stderr(write_labelled(label, payload))
        } else {
            Output::Silent
        },
    }
}

/// Decides what to do about an event, given the text that was extracted from its payload. The
/// end-of-stream signal, and nothing else, makes the tool leave the stream.
pub fn react(event: &SseEvent, extracted: Option<String>, raw: bool, verbose: bool) -> (reaction:
    Reaction)
    ensures
        reaction.output@ == output_for(event@, text::optional(extracted), raw, verbose),
        reaction.stop == (event@ is Done),
{
    match event {
        SseEvent::Data(data) => Reaction {
            output: show_payload("data", data.as_str(), extracted, raw, verbose),
            stop: false,
        },
        SseEvent::NamedData { event_type, data } => Reaction {
            output: show_payload(event_type.as_str(), data.as_str(), extracted, raw, verbose),
            stop: false,
        },
        SseEvent::Done => {
            let output = if verbose {
                Output::Stderr("\n[done]\n".to_owned())
            } else if !raw {
                Output::Stdout("\n".to_owned())
            } else {
                Output::Silent
            };
            Reaction { output, stop: true }
        },
        SseEvent::Comment(comment) => {
            let output = if verbose {
                Output::Stderr(write_labelled("comment", comment.as_str()))
            } else {
                Output::Silent
            };
            Reaction { output, stop: false }
        },
    }
}

/// Decides what to do about an event.
pub fn handle_event(event: &SseEvent, args: &Args) -> (reaction: Reaction)
    ensures
        reaction.output@ == output_for(
            event@,
            extracted_from(event@, args.extract),
            args.raw,
            args.verbose,
        ),
        reaction.stop == (event@ is Done),
{
    let extracted = match event {
        _ if args.raw => None,
        SseEvent::Data(data) => json::extract_text(data.as_str(), args.extract),
        SseEvent::NamedData { event_type: _, data } => json::extract_text(
            data.as_str(),
            args.extract,
        ),
        _ => None,
    };
    react(event, extracted, args.raw, args.verbose)
}

/// Raw output does not depend on what could be extracted.
pub proof fn law_raw_extracts_nothing(
    event: EventView,
    a: Option<Seq<char>>,
    b: Option<Seq<char>>,
    verbose: bool,
)
    ensures
        output_for(event, a, true, verbose) == output_for(event, b, true, verbose),
{
}

/// Nothing goes to standard error that was not asked for, and asking for more leaves what
/// payloads put on standard output as it is.
pub proof fn law_verbose_only_adds(event: EventView, extracted: Option<Seq<char>>, raw: bool)
    ensures
        !(output_for(event, extracted, raw, false) is Stderr),
        !(event is Done) && output_for(event, extracted, raw, false) is Stdout ==> output_for(
            event,
            extracted,
            raw,
            true,
        ) == output_for(event, extracted, raw, false),
{
}

/// The view of arguments has all their headers, in order, and the same texts.
pub proof fn law_args_view(args: Args)
    ensures
        args.url matches Some(url) ==> args@.url == Some(url@),
        args.url is None ==> args@.url is None,
        args.data matches Some(data) ==> args@.data == Some(data@),
        args.data is None ==> args@.data is None,
        args@.headers.len() == args.headers@.len(),
        forall|i: int|
            0 <= i < args.headers@.len() ==> #[trigger] args@.headers[i] == (
                args.headers@[i].0@,
                args.headers@[i].1@,
            ),
        args@.extract == args.extract,
        args@.raw == args.raw,
        args@.verbose == args.verbose,
{
}

/// The view of a request has all its headers, in order, and the same texts.
pub proof fn law_request_view(request: Request)
    ensures
        request@.post == request.post,
        request@.url == request.url@,
        request@.headers.len() == request.headers@.len(),
        forall|i: int|
            0 <= i < request.headers@.len() ==> #[trigger] request@.headers[i] == (
                request.headers@[i].0@,
                request.headers@[i].1@,
            ),
        request.body matches Some(body) ==> request@.body == Some(body@),
        request.body is None ==> request@.body is None,
{
}

/// The view of an output goes to the same place and has the same text.
pub proof fn law_output_view(output: Output)
    ensures
        output is Silent ==> output@ is Silent,
        output matches Output::Stdout(s) ==> output@ == OutputView::Stdout(s@),
        output matches Output::Stderr(s) ==> output@ == OutputView::Stderr(s@),
{
}

/// The texts of the names and modes of the command line.
proof fn lemma_names()
    ensures
        "--help"@ == seq!['-', '-', 'h', 'e', 'l', 'p'],
        "-h"@ == seq!['-', 'h'],
        "--url"@ == seq!['-', '-', 'u', 'r', 'l'],
        "--header"@ == seq!['-', '-', 'h', 'e', 'a', 'd', 'e', 'r'],
        "-H"@ == seq!['-', 'H'],
        "--data"@ == seq!['-', '-', 'd', 'a', 't', 'a'],
        "-d"@ == seq!['-', 'd'],
        "--extract"@ == seq!['-', '-', 'e', 'x', 't', 'r', 'a', 'c', 't'],
        "--raw"@ == seq!['-', '-', 'r', 'a', 'w'],
        "--verbose"@ == seq!['-', '-', 'v', 'e', 'r', 'b', 'o', 's', 'e'],
        "-v"@ == seq!['-', 'v'],
{
    reveal_strlit("--help");
    reveal_strlit("-h");
    reveal_strlit("--url");
    reveal_strlit("--header");
    reveal_strlit("-H");
    reveal_strlit("--data");
    reveal_strlit("-d");
    reveal_strlit("--extract");
    reveal_strlit("--raw");
    reveal_strlit("--verbose");
    reveal_strlit("-v");
    assert("--help"@ =~= seq!['-', '-', 'h', 'e', 'l', 'p']);
    assert("-h"@ =~= seq!['-', 'h']);
    assert("--url"@ =~= seq!['-', '-', 'u', 'r', 'l']);
    assert("--header"@ =~= seq!['-', '-', 'h', 'e', 'a', 'd', 'e', 'r']);
    assert("-H"@ =~= seq!['-', 'H']);
    assert("--data"@ =~= seq!['-', '-', 'd', 'a', 't', 'a']);
    assert("-d"@ =~= seq!['-', 'd']);
    assert("--extract"@ =~= seq!['-', '-', 'e', 'x', 't', 'r', 'a', 'c', 't']);
    assert("--raw"@ =~= seq!['-', '-', 'r', 'a', 'w']);
    assert("--verbose"@ =~= seq!['-', '-', 'v', 'e', 'r', 'b', 'o', 's', 'e']);
    assert("-v"@ =~= seq!['-', 'v']);
}

/// Which option an argument stands for. Each name stands for one option, and every argument that
/// is none of these names is unknown.
pub proof fn law_options(arg: Seq<char>)
    ensures
        flag_of(arg) is Help <==> arg == "--help"@ || arg == "-h"@,
        flag_of(arg) is Url <==> arg == "--url"@,
        flag_of(arg) is Header <==> arg == "--header"@ || arg == "-H"@,
        flag_of(arg) is Data <==> arg == "--data"@ || arg == "-d"@,
        flag_of(arg) is Extract <==> arg == "--extract"@,
        flag_of(arg) is Raw <==> arg == "--raw"@,
        flag_of(arg) is Verbose <==> arg == "--verbose"@ || arg == "-v"@,
{
    lemma_names();
    assert("--help"@[2] == 'h' && "--data"@[2] == 'd');
    assert("--url"@[2] == 'u' && "--raw"@[2] == 'r');
    assert("--extract"@[2] == 'e' && "--verbose"@[2] == 'v');
    assert("-h"@[1] == 'h' && "-H"@[1] == 'H' && "-d"@[1] == 'd' && "-v"@[1] == 'v');
}

/// Which mode a value of `--extract` stands for: one of the four names gives its mode, and no
/// other text gives any.
pub proof fn law_modes(mode: Seq<char>)
    ensures
        mode_of(mode) == Some(ExtractMode::OpenAI) <==> mode == "openai"@,
        mode_of(mode) == Some(ExtractMode::Anthropic) <==> mode == "anthropic"@,
        mode_of(mode) == Some(ExtractMode::Ollama) <==> mode == "ollama"@,
        mode_of(mode) == Some(ExtractMode::Auto) <==> mode == "auto"@,
{
    reveal_strlit("openai");
    reveal_strlit("anthropic");
    reveal_strlit("ollama");
    reveal_strlit("auto");
    assert("openai"@.len() == 6 && "ollama"@.len() == 6);
    assert("anthropic"@.len() == 9 && "auto"@.len() == 4);
    assert("openai"@[1] == 'p' && "ollama"@[1] == 'l');
}

/// A header is parted by its first colon, whatever stands on either side; white space around
/// the two parts is left out. Without a colon there is no header.
pub proof fn law_header(name: Seq<char>, value: Seq<char>)
    requires
        !name.contains(':'),
    ensures
        header_of(name) is None,
        header_of(name + seq![':'] + value) == Some((text::trimmed(name), text::trimmed(value))),
{
    let header = name + seq![':'] + value;
    let at = name.len() as int;
    assert(header[at] == ':');
    header.index_of_first_ensures(':');
    let first = header.index_of_first(':')->0;
    if first < at {
        assert(name.contains(name[first]));
    }
    assert(header.take(at) =~= name);
    assert(header.skip(at + 1) =~= value);
}

/// An empty command line asks for nothing.
pub proof fn law_no_args()
    ensures
        no_args().url is None,
        no_args().headers.len() == 0,
        no_args().data is None,
        no_args().extract == ExtractMode::Auto,
        !no_args().raw,
        !no_args().verbose,
{
}

/// The end of the command line: the tool runs with what was read.
pub proof fn law_end_of_args(args: ArgsView)
    ensures
        outcome_of(args, Seq::empty()) == Outcome::Run(args),
{
}

/// What an argument that takes no value does, whatever was read before it and comes behind it:
/// `--help` ends the reading; `--raw` and `--verbose` are noted, and the reading goes on behind
/// them; an argument that is no option at all is refused by its name.
pub proof fn law_single_argument(args: ArgsView, arg: Seq<char>, rest: Seq<Seq<char>>)
    ensures
        ({
            let outcome = outcome_of(args, seq![arg] + rest);
            &&& arg == "--help"@ || arg == "-h"@ ==> outcome is Help
            &&& arg == "--raw"@ ==> outcome == outcome_of(ArgsView { raw: true, ..args }, rest)
            &&& arg == "--verbose"@ || arg == "-v"@ ==> outcome == outcome_of(
                ArgsView { verbose: true, ..args },
                rest,
            )
            &&& {
                &&& arg != "--help"@ && arg != "-h"@ && arg != "--raw"@ && arg != "--verbose"@
                &&& arg != "-v"@ && arg != "--url"@ && arg != "--header"@ && arg != "-H"@
                &&& arg != "--data"@ && arg != "-d"@ && arg != "--extract"@
            } ==> outcome == Outcome::Refused("Unknown argument: "@ + arg)
        }),
{
    law_options(arg);
    let argv = seq![arg] + rest;
    assert(argv[0] == arg);
    assert(argv.skip(1) =~= rest);
}

/// What an option with its value does, whatever the value is, whatever was read before and comes
/// behind it: the value of `--url` and of `--data` is noted as it is, in place of an earlier
/// one; that of `--header` is added behind the headers so far, if it has a colon; that of
/// `--extract` is noted if it is a mode and refused by its name if not. Nothing else changes,
/// and the reading goes on behind the value.
pub proof fn law_option_with_value(
    args: ArgsView,
    arg: Seq<char>,
    value: Seq<char>,
    rest: Seq<Seq<char>>,
)
    ensures
        ({
            let outcome = outcome_of(args, seq![arg, value] + rest);
            &&& arg == "--url"@ ==> outcome == outcome_of(
                ArgsView { url: Some(value), ..args },
                rest,
            )
            &&& arg == "--data"@ || arg == "-d"@ ==> outcome == outcome_of(
                ArgsView { data: Some(value), ..args },
                rest,
            )
            &&& arg == "--header"@ || arg == "-H"@ ==> match header_of(value) {
                Some(header) => outcome == outcome_of(
                    ArgsView { headers: args.headers + seq![header], ..args },
                    rest,
                ),
                None => outcome == outcome_of(args, rest),
            }
            &&& arg == "--extract"@ ==> match mode_of(value) {
                Some(mode) => outcome == outcome_of(ArgsView { extract: mode, ..args }, rest),
                None => outcome == Outcome::Refused("Unknown extract mode: "@ + value),
            }
        }),
{
    law_options(arg);
    let argv = seq![arg, value] + rest;
    assert(argv[0] == arg);
    assert(argv[1] == value);
    assert(argv.skip(2) =~= rest);
    if let Some(header) = header_of(value) {
        assert(args.headers.push(header) =~= args.headers + seq![header]);
    }
}

/// An option that takes a value cannot stand last; any other argument can.
pub proof fn law_missing_value(args: ArgsView, arg: Seq<char>)
    ensures
        outcome_of(args, seq![arg]) is NoValue <==> {
            ||| arg == "--url"@
            ||| arg == "--header"@ || arg == "-H"@
            ||| arg == "--data"@ || arg == "-d"@
            ||| arg == "--extract"@
        },
{
    law_options(arg);
    reveal_with_fuel(outcome_of, 2);
    let one = seq![arg];
    assert(one[0] == arg);
    assert(one.skip(1) =~= Seq::empty());
}

/// A command line lacks a value exactly if that is what becomes of it, whatever was read before.
pub proof fn law_lacks_value(args: ArgsView, argv: Seq<Seq<char>>)
    ensures
        lacks_value(argv) <==> outcome_of(args, argv) is NoValue,
{
    lemma_no_value(args, no_args(), argv);
}

/// All headers that were given are headers of the request: at the same place, with the same name
/// and value, however many there are. Behind them comes one more if there is a body, which says
/// that it is JSON, and none if not.
pub proof fn law_request_headers(args: ArgsView)
    ensures
        request_of(args) matches Some(request) ==> {
            &&& request.headers.len() == args.headers.len() + (if args.data is Some {
                1int
            } else {
                0
            })
            &&& forall|i: int|
                0 <= i < args.headers.len() ==> #[trigger] request.headers[i] == args.headers[i]
            &&& args.data is Some ==> request.headers.last() == (
                "Content-Type"@,
                "application/json"@,
            )
        },
{
}

/// A request is made exactly if there is a URL, and goes there. It is a POST request exactly if
/// there is a body, which is sent as it was given.
pub proof fn law_request(args: ArgsView)
    ensures
        request_of(args) is Some <==> args.url is Some,
        request_of(args) matches Some(request) ==> {
            &&& args.url == Some(request.url)
            &&& request.post <==> args.data is Some
            &&& request.body == args.data
        },
{
}

/// What is printed for a payload, whatever it is. Raw, it is printed as it is, on a line.
/// Otherwise the text that was extracted is printed as it is; where there is none, the payload
/// is shown under its event type on standard error if that was asked for, and nothing if not.
pub proof fn law_payload_output(
    data: Seq<char>,
    event_type: Seq<char>,
    extracted: Option<Seq<char>>,
    raw: bool,
    verbose: bool,
)
    ensures
        ({
            let plain = output_for(EventView::Data(data), extracted, raw, verbose);
            let typed = output_for(
                EventView::NamedData { event_type, data },
                extracted,
                raw,
                verbose,
            );
            &&& raw ==> plain == OutputView::Stdout(data + seq!['\n']) && typed == plain
            &&& !raw ==> match extracted {
                Some(found) => plain == OutputView::Stdout(found) && typed == plain,
                None => if verbose {
                    &&& plain == OutputView::Stderr(
                        seq!['[', 'd', 'a', 't', 'a', ']', ' '] + data + seq!['\n'],
                    )
                    &&& typed == OutputView::Stderr(
                        seq!['['] + event_type + seq![']', ' '] + data + seq!['\n'],
                    )
                } else {
                    plain is Silent && typed is Silent
                },
            }
        }),
{
    reveal_strlit("[");
    reveal_strlit("] ");
    reveal_strlit("\n");
    reveal_strlit("data");
    assert("\n"@ =~= seq!['\n']);
    assert("["@ =~= seq!['[']);
    assert("] "@ =~= seq![']', ' ']);
    assert("["@ + "data"@ + "] "@ =~= seq!['[', 'd', 'a', 't', 'a', ']', ' ']);
}

/// What is printed for a comment and for the end-of-stream signal. A comment is shown, whatever
/// it is, only if that was asked for. The signal is shown if that was asked for; otherwise it
/// ends the line of the extracted text, of which there is none where payloads are raw.
pub proof fn law_other_output(
    comment: Seq<char>,
    extracted: Option<Seq<char>>,
    raw: bool,
    verbose: bool,
)
    ensures
        ({
            let shown = output_for(EventView::Comment(comment), extracted, raw, verbose);
            let done = output_for(EventView::Done, extracted, raw, verbose);
            &&& verbose ==> shown == OutputView::Stderr(
                seq!['[', 'c', 'o', 'm', 'm', 'e', 'n', 't', ']', ' '] + comment + seq!['\n'],
            )
            &&& !verbose ==> shown is Silent
            &&& verbose ==> done == OutputView::Stderr(
                seq!['\n', '[', 'd', 'o', 'n', 'e', ']', '\n'],
            )
            &&& !verbose && !raw ==> done == OutputView::Stdout(seq!['\n'])
            &&& !verbose && raw ==> done is Silent
        }),
{
    reveal_strlit("[");
    reveal_strlit("] ");
    reveal_strlit("\n");
    reveal_strlit("comment");
    reveal_strlit("\n[done]\n");
    assert("\n"@ =~= seq!['\n']);
    assert("\n[done]\n"@ =~= seq!['\n', '[', 'd', 'o', 'n', 'e', ']', '\n']);
    assert("["@ + "comment"@ + "] "@ =~= seq![
        '[',
        'c',
        'o',
        'm',
        'm',
        'e',
        'n',
        't',
        ']',
        ' ',
    ]);
}

/// Text is extracted from the data of an event, named or not, whatever its type, by the mode
/// that was asked for, and from no other event.
pub proof fn law_extracted_from_data(
    data: Seq<char>,
    event_type: Seq<char>,
    comment: Seq<char>,
    mode: ExtractMode,
)
    ensures
        extracted_from(EventView::Data(data), mode) == json::document_text(
            json::parsed(data),
            mode,
        ),
        extracted_from(EventView::NamedData { event_type, data }, mode) == json::document_text(
            json::parsed(data),
            mode,
        ),
        extracted_from(EventView::Comment(comment), mode) is None,
        extracted_from(EventView::Done, mode) is None,
{
}

} // verus!
