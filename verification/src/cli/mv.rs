//! Moving and renaming notes: argument checks, the new title and topics,
//! and the rebuilt note.

use vstd::prelude::*;
use vstd::string::StringExecFns;
use crate::cli::links::clone_links;
use crate::cli::output::OutputFormat;
use crate::domain::note::{
    clone_tags, clone_topics, dedup_first, description_spec, dedup_aliases_spec, rebuild_note,
    strings_view, tags_view, topics_view, Note, ParseNoteError,
};
use crate::domain::timestamp::Timestamp;
use crate::domain::topic::{topic_parse, ParseTopicError, Topic};
use crate::text::{chars_of, string_from_chars, trim, trim_chars};

verus! {

/// Arguments of `mv`.
#[derive(Debug)]
pub struct MvArgs {
    /// The note to move (identifier prefix, title or alias).
    pub note: String,
    /// New title.
    pub title: Option<String>,
    /// New topics (replacing the old ones).
    pub topics: Vec<String>,
    /// Remove all topics.
    pub clear_topics: bool,
    pub format: OutputFormat,
}

/// What a move reports.
#[derive(Debug)]
pub struct MvResult {
    pub id: String,
    pub title: String,
    pub old_path: String,
    pub new_path: String,
    pub topics: Vec<String>,
}

/// Why the arguments of `mv` were refused.
#[derive(Debug)]
pub struct MvArgsError(String);

impl View for MvArgsError {
    type V = Seq<char>;

    closed spec fn view(&self) -> Seq<char> {
        self.0@
    }
}

impl MvArgsError {
    pub fn to_string(&self) -> (r: String)
        ensures
            r@ == self@,
    {
        self.0.clone()
    }
}

pub open spec fn opt_str_view(o: Option<String>) -> Option<Seq<char>> {
    match o {
        Some(s) => Some(s@),
        None => None,
    }
}

/// The message `validate_mv_args` refuses the arguments with, if any.
pub open spec fn mv_args_problem(title: Option<Seq<char>>, n_topics: nat, clear_topics: bool) -> Option<
    Seq<char>,
> {
    if title is None && n_topics == 0 && !clear_topics {
        Some("at least one of --title, --topic, or --clear-topics must be specified"@)
    } else if clear_topics && n_topics > 0 {
        Some("--clear-topics and --topic are mutually exclusive"@)
    } else if title matches Some(t) && trim(t).len() == 0 {
        Some("--title cannot be empty"@)
    } else {
        None
    }
}

/// Checks the arguments of `mv`: some change must be asked for, topics and
/// `--clear-topics` exclude each other, and a new title must not be blank.
pub fn validate_mv_args(args: &MvArgs) -> (r: Result<(), MvArgsError>)
    ensures
        match mv_args_problem(opt_str_view(args.title), args.topics@.len(), args.clear_topics) {
            Some(m) => r matches Err(e) && e@ == m,
            None => r is Ok,
        },
{
    if args.title.is_none() && args.topics.len() == 0 && !args.clear_topics {
        return Err(
            MvArgsError(
                String::from_str(
                    "at least one of --title, --topic, or --clear-topics must be specified",
                ),
            ),
        );
    }
    if args.clear_topics && args.topics.len() > 0 {
        return Err(
            MvArgsError(String::from_str("--clear-topics and --topic are mutually exclusive")),
        );
    }
    match &args.title {
        Some(t) => {
            if trim_chars(chars_of(t.as_str()).as_slice()).len() == 0 {
                return Err(MvArgsError(String::from_str("--title cannot be empty")));
            }
        },
        None => {},
    }
    Ok(())
}

/// A topic argument that is no valid topic.
#[derive(Debug)]
pub struct InvalidTopicArg {
    input: String,
    cause: ParseTopicError,
}

impl InvalidTopicArg {
    pub closed spec fn spec_input(&self) -> Seq<char> {
        self.input@
    }

    pub closed spec fn spec_cause(&self) -> Seq<char> {
        self.cause@
    }

    /// The topic text that was refused.
    pub fn input(&self) -> (r: &str)
        ensures
            r@ == self.spec_input(),
    {
        self.input.as_str()
    }

    /// Why the topic parser refused it.
    pub fn cause(&self) -> (r: String)
        ensures
            r@ == self.spec_cause(),
    {
        self.cause.to_string()
    }

    /// `invalid topic '<input>': topics must contain only alphanumeric
    /// characters, hyphens, underscores, and forward slashes`.
    pub fn to_string(&self) -> (r: String)
        ensures
            r@ == "invalid topic '"@ + self.spec_input()
                + "': topics must contain only alphanumeric characters, hyphens, underscores, and forward slashes"@,
    {
        let mut s = String::from_str("invalid topic '");
        s.append(self.input.as_str());
        s.append("': topics must contain only alphanumeric characters, hyphens, underscores, and forward slashes");
        s
    }
}

/// Parsing each topic text in turn: the parsed topics, or the position of
/// the first text that is no valid topic.
pub open spec fn parse_all_topics(strs: Seq<Seq<char>>) -> Result<Seq<Seq<Seq<char>>>, int>
    decreases strs.len(),
{
    if strs.len() == 0 {
        Ok(Seq::empty())
    } else {
        match parse_all_topics(strs.drop_last()) {
            Ok(acc) => match topic_parse(strs.last()) {
                Ok(t) => Ok(acc.push(t)),
                Err(_) => Err(strs.len() - 1),
            },
            Err(k) => Err(k),
        }
    }
}

proof fn lemma_parse_all_err_stays(strs: Seq<Seq<char>>, n: int, k: int)
    requires
        0 <= n <= strs.len(),
        parse_all_topics(strs.take(n)) == Err::<Seq<Seq<Seq<char>>>, int>(k),
    ensures
        parse_all_topics(strs) == Err::<Seq<Seq<Seq<char>>>, int>(k),
    decreases strs.len() - n,
{
    if n == strs.len() {
        assert(strs.take(n) =~= strs);
    } else {
        assert(strs.take(n + 1).drop_last() =~= strs.take(n));
        lemma_parse_all_err_stays(strs, n + 1, k);
    }
}

/// Parses topic texts; the first invalid one is reported.
pub fn parse_topics(topic_strs: &[String]) -> (r: Result<Vec<Topic>, InvalidTopicArg>)
    ensures
        match parse_all_topics(strings_view(topic_strs@)) {
            Ok(ts) => r matches Ok(v) && topics_view(v@) == ts,
            Err(k) => r matches Err(e) && 0 <= k < topic_strs@.len() && e.spec_input()
                == topic_strs@[k]@ && topic_parse(topic_strs@[k]@) == Err::<
                Seq<Seq<char>>,
                Seq<char>,
            >(e.spec_cause()),
        },
{
    let ghost strs = strings_view(topic_strs@);
    let mut topics: Vec<Topic> = Vec::new();
    let mut i: usize = 0;
    assert(strs.take(0) =~= Seq::<Seq<char>>::empty());
    assert(topics_view(topics@) =~= Seq::<Seq<Seq<char>>>::empty());
    while i < topic_strs.len()
        invariant
            i <= topic_strs@.len(),
            strs == strings_view(topic_strs@),
            parse_all_topics(strs.take(i as int)) == Ok::<Seq<Seq<Seq<char>>>, int>(
                topics_view(topics@),
            ),
        decreases topic_strs@.len() - i,
    {
        assert(strs.take(i + 1).drop_last() =~= strs.take(i as int));
        assert(strs.take(i + 1).last() == topic_strs@[i as int]@);
        match Topic::new(topic_strs[i].as_str()) {
            Ok(t) => {
                let ghost before = topics@;
                topics.push(t);
                assert(topics_view(topics@) =~= topics_view(before).push(t@));
            },
            Err(e) => {
                proof {
                    lemma_parse_all_err_stays(strs, i + 1, i as int);
                }
                return Err(InvalidTopicArg { input: topic_strs[i].clone(), cause: e });
            },
        }
        i = i + 1;
    }
    assert(strs.take(strs.len() as int) =~= strs);
    Ok(topics)
}

/// The new title and topics of a move, and what changes.
pub struct MvPlan {
    pub new_title: String,
    pub new_topics: Vec<Topic>,
    pub title_unchanged: bool,
    pub topics_unchanged: bool,
}

/// The title after a move: the trimmed new title, or the old one.
pub open spec fn planned_title(note_title: Seq<char>, title: Option<Seq<char>>) -> Seq<char> {
    match title {
        Some(t) => trim(t),
        None => note_title,
    }
}

/// Equality of topic lists, element by element.
fn topics_eq(a: &[Topic], b: &[Topic]) -> (r: bool)
    ensures
        r == (topics_view(a@) == topics_view(b@)),
{
    if a.len() != b.len() {
        return false;
    }
    let mut i: usize = 0;
    while i < a.len()
        invariant
            i <= a@.len() == b@.len(),
            forall|j: int| 0 <= j < i ==> a@[j]@ == b@[j]@,
        decreases a@.len() - i,
    {
        if a[i] != b[i] {
            assert(topics_view(a@)[i as int] != topics_view(b@)[i as int]);
            return false;
        }
        i = i + 1;
    }
    assert(topics_view(a@) =~= topics_view(b@));
    true
}

/// Works out a move: the new title (the trimmed `--title`, else the old
/// title), the new topics (none with `--clear-topics`, the parsed
/// `--topic` values when given, else the old topics), and whether each
/// differs from the note's.
pub fn plan_mv(note: &Note, args: &MvArgs) -> (r: Result<MvPlan, InvalidTopicArg>)
    ensures
        !args.clear_topics && args.topics@.len() > 0 && parse_all_topics(strings_view(args.topics@)) is Err
            <==> r is Err,
        r matches Err(e) ==> (parse_all_topics(strings_view(args.topics@)) matches Err(k) && 0 <= k
            < args.topics@.len() && e.spec_input() == args.topics@[k]@),
        r matches Ok(p) ==> {
            let topics = if args.clear_topics {
                Seq::<Seq<Seq<char>>>::empty()
            } else if args.topics@.len() > 0 {
                parse_all_topics(strings_view(args.topics@))->Ok_0
            } else {
                note.spec_topics()
            };
            &&& p.new_title@ == planned_title(note.spec_title(), opt_str_view(args.title))
            &&& topics_view(p.new_topics@) == topics
            &&& p.title_unchanged == (p.new_title@ == note.spec_title())
            &&& p.topics_unchanged == (topics == note.spec_topics())
        },
{
    let new_title = match &args.title {
        Some(t) => string_from_chars(trim_chars(chars_of(t.as_str()).as_slice()).as_slice()),
        None => String::from_str(note.title()),
    };
    let new_topics = if args.clear_topics {
        let v: Vec<Topic> = Vec::new();
        assert(topics_view(v@) =~= Seq::<Seq<Seq<char>>>::empty());
        v
    } else if args.topics.len() > 0 {
        match parse_topics(args.topics.as_slice()) {
            Ok(v) => v,
            Err(e) => {
                return Err(e);
            },
        }
    } else {
        clone_topics(note.topics())
    };
    let title_unchanged = crate::text::str_eq(new_title.as_str(), note.title());
    let topics_unchanged = topics_eq(new_topics.as_slice(), note.topics());
    Ok(MvPlan { new_title, new_topics, title_unchanged, topics_unchanged })
}

/// The note after a move at time `now`: new title and topics, everything
/// else kept.
pub fn moved_note(note: &Note, plan: &MvPlan, now: Timestamp) -> (res: Result<Note, ParseNoteError>)
    ensures
        res is Ok <==> trim(plan.new_title@).len() > 0,
        res matches Ok(n) ==> {
            &&& n.spec_id() == note.spec_id()
            &&& n.spec_title() == trim(plan.new_title@)
            &&& n.spec_created() == note.spec_created()
            &&& n.spec_modified() == now
            &&& n.spec_description() == note.spec_description()
            &&& n.spec_topics() == dedup_first(topics_view(plan.new_topics@))
            &&& n.spec_aliases() == note.spec_aliases()
            &&& n.spec_tags() == note.spec_tags()
            &&& crate::cli::links::links_view(n.spec_links()) == crate::cli::links::links_view(
                note.spec_links(),
            )
        },
{
    proof {
        use_type_invariant(note);
        crate::domain::note::lemma_dedup_first_of_distinct(note.spec_tags());
    }
    let tags = clone_tags(note.tags());
    let links = clone_links(note.links());
    rebuild_note(
        note,
        plan.new_title.as_str(),
        now,
        clone_topics(plan.new_topics.as_slice()),
        tags,
        links,
    )
}

/// The topic paths of a list of topics.
pub fn topic_strings(topics: &[Topic]) -> (r: Vec<String>)
    ensures
        r@.len() == topics@.len(),
        forall|i: int| 0 <= i < topics@.len() ==> (#[trigger] r@[i])@ == crate::domain::topic::join_slash(
            topics@[i]@,
        ),
{
    let mut out: Vec<String> = Vec::new();
    let mut i: usize = 0;
    while i < topics.len()
        invariant
            i <= topics@.len(),
            out@.len() == i,
            forall|j: int| 0 <= j < i ==> (#[trigger] out@[j])@ == crate::domain::topic::join_slash(
                topics@[j]@,
            ),
        decreases topics@.len() - i,
    {
        out.push(topics[i].to_string());
        i = i + 1;
    }
    out
}

} // verus!
