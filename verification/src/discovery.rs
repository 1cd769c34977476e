//! Which worktrees are watched.

use crate::config::{RepositoryView, RuntimeConfig, RuntimeView};
use crate::git_store::{git_form, git_path, plain_command, plain_git};
use crate::outside::{
    add_glob, any_glob_matches, build_glob_set, builder_patterns, glob_problem, glob_set_matches,
    new_glob, new_glob_set, set_patterns, text_strict, utf8_problem,
};
use crate::path_set::{insert_path, path_set};
use crate::paths::{absolute, is_absolute, parent, parent_of, slashed, with_slashes, PathStyle};
use crate::platform::{expand_path_from, expanded};
use crate::procedure::{
    flag, flag_step, insist, insisted, path, path_step, reply_step, reply_to, report, report_step,
    run, run_step, tell, tell_step, Action, ActionView, Attempt, AttemptView, Failure, FailureView,
    InvocationView, Reply, ReplyView, Step, StepView,
};
use crate::text::{copy_texts, join2, trim, trimmed};
use crate::native::{bytes_of_path, path_bytes, readable, readable_text};
use vstd::prelude::*;
use vstd::utf8::{decode_utf8, valid_utf8};

verus! {

/// Asks Git for the worktree that a directory lies in.
pub open spec fn toplevel_command(start: Seq<char>) -> InvocationView {
    plain_git(
        seq![
            "-C"@,
            start,
            "rev-parse"@,
            "--path-format=absolute"@,
            "--show-toplevel"@,
        ],
        None,
    )
}

/// The canonical form of a path that has to have one.
pub open spec fn canonical_step(
    wanted: Seq<char>,
    replies: Seq<ReplyView>,
    at: int,
) -> StepView<Seq<char>> {
    insisted(try_canonical_step("failed to canonicalize "@, wanted, replies, at))
}

/// Tries to find the canonical form of a path.
pub open spec fn try_canonical_step(
    task: Seq<char>,
    wanted: Seq<char>,
    replies: Seq<ReplyView>,
    at: int,
) -> StepView<AttemptView<Seq<char>>> {
    match path_step(
        replies,
        at,
        ActionView::Resolve(wanted),
        task + wanted,
    ) {
        StepView::Perform(a) => StepView::Perform(a),
        StepView::Failed(f) => StepView::Finished(AttemptView::Failure(f), at + 1),
        StepView::Finished(Some(found), n) => StepView::Finished(AttemptView::Success(found), n),
        StepView::Finished(None, n) => StepView::Finished(
            AttemptView::Failure(FailureView::UnexpectedReply),
            n,
        ),
    }
}

/// Tries to find the worktree that a directory lies in.
pub open spec fn try_toplevel_step(
    start: Seq<char>,
    replies: Seq<ReplyView>,
    at: int,
) -> StepView<AttemptView<Seq<char>>> {
    match run_step(replies, at, toplevel_command(start), "failed to run git for "@ + start) {
        StepView::Perform(a) => StepView::Perform(a),
        StepView::Failed(f) => StepView::Finished(AttemptView::Failure(f), at + 1),
        StepView::Finished(output, n) => if !output.success() {
            StepView::Finished(AttemptView::Failure(FailureView::NotInWorktree), n)
        } else if !valid_utf8(output.stdout) {
            StepView::Finished(
                AttemptView::Failure(
                    FailureView::NotUtf8 {
                        context: "Git returned a non-UTF-8 worktree path"@,
                        cause: utf8_problem(output.stdout),
                    },
                ),
                n,
            )
        } else {
            try_canonical_step(
                "failed to canonicalize Git root "@,
                trimmed(decode_utf8(output.stdout)),
                replies,
                n,
            )
        },
    }
}

/// Tries to find the worktree that a path lies in.
pub open spec fn try_git_root_step(
    style: PathStyle,
    of: Seq<char>,
    replies: Seq<ReplyView>,
    at: int,
) -> StepView<AttemptView<Seq<char>>> {
    match flag_step(
        replies,
        at,
        ActionView::AreDirectories(seq![of]),
        "failed to inspect "@ + of,
    ) {
        StepView::Perform(a) => StepView::Perform(a),
        StepView::Failed(f) => StepView::Finished(AttemptView::Failure(f), at + 1),
        StepView::Finished(true, n) => try_toplevel_step(of, replies, n),
        StepView::Finished(false, n) => match parent_of(style, of) {
            None => StepView::Finished(AttemptView::Failure(FailureView::NoParentDirectory), n),
            Some(start) => try_toplevel_step(start, replies, n),
        },
    }
}

/// The worktree that a path lies in.
pub open spec fn git_root_step(
    style: PathStyle,
    of: Seq<char>,
    replies: Seq<ReplyView>,
    at: int,
) -> StepView<Seq<char>> {
    insisted(try_git_root_step(style, of, replies, at))
}

fn try_canonicalize(task: &str, wanted: &str, replies: &Vec<Reply>, at: usize) -> (step: Step<
    Attempt<String>,
>)
    ensures
        step.deep_view() == try_canonical_step(task@, wanted@, replies.deep_view(), at as int),
{
    let total: usize = replies.len();
    let context = join2(task, wanted);
    match path(replies, at, Action::Resolve(wanted.to_owned()), context.as_str()) {
        Step::Perform(a) => Step::Perform(a),
        Step::Failed(f) => {
            assert(at < total);
            Step::Finished(Attempt::Failure(f), at + 1)
        },
        Step::Finished(Some(found), n) => Step::Finished(Attempt::Success(found), n),
        Step::Finished(None, n) => Step::Finished(
            Attempt::Failure(Failure::UnexpectedReply),
            n,
        ),
    }
}

/// The canonical form of a path that has to have one.
pub fn canonicalize(wanted: &str, replies: &Vec<Reply>, at: usize) -> (step: Step<String>)
    ensures
        step.deep_view() == canonical_step(wanted@, replies.deep_view(), at as int),
{
    insist(try_canonicalize("failed to canonicalize ", wanted, replies, at))
}

fn try_toplevel(start: &str, replies: &Vec<Reply>, at: usize) -> (step: Step<Attempt<String>>)
    ensures
        step.deep_view() == try_toplevel_step(start@, replies.deep_view(), at as int),
{
    let total: usize = replies.len();
    let context = join2("failed to run git for ", start);
    let arguments = vec![
        "-C".to_owned(),
        start.to_owned(),
        "rev-parse".to_owned(),
        "--path-format=absolute".to_owned(),
        "--show-toplevel".to_owned(),
    ];
    assert(arguments.deep_view() =~= toplevel_command(start@).arguments);
    match run(replies, at, plain_command(arguments, None), context.as_str()) {
        Step::Perform(a) => Step::Perform(a),
        Step::Failed(f) => {
            assert(at < total);
            Step::Finished(Attempt::Failure(f), at + 1)
        },
        Step::Finished(output, n) => {
            if !output.succeeded() {
                return Step::Finished(Attempt::Failure(Failure::NotInWorktree), n);
            }
            match text_strict(&output.stdout) {
                Err(cause) => Step::Finished(
                    Attempt::Failure(
                        Failure::NotUtf8 {
                            context: "Git returned a non-UTF-8 worktree path".to_owned(),
                            cause,
                        },
                    ),
                    n,
                ),
                Ok(value) => {
                    let root = trim(value.as_str());
                    try_canonicalize(
                        "failed to canonicalize Git root ",
                        root.as_str(),
                        replies,
                        n,
                    )
                },
            }
        },
    }
}

fn try_git_root(style: PathStyle, of: &str, replies: &Vec<Reply>, at: usize) -> (step: Step<
    Attempt<String>,
>)
    ensures
        step.deep_view() == try_git_root_step(style, of@, replies.deep_view(), at as int),
{
    let total: usize = replies.len();
    let context = join2("failed to inspect ", of);
    let one = vec![of.to_owned()];
    assert(one.deep_view() =~= seq![of@]);
    match flag(replies, at, Action::AreDirectories(one), context.as_str()) {
        Step::Perform(a) => Step::Perform(a),
        Step::Failed(f) => {
            assert(at < total);
            Step::Finished(Attempt::Failure(f), at + 1)
        },
        Step::Finished(true, n) => try_toplevel(of, replies, n),
        Step::Finished(false, n) => match parent(style, of) {
            None => Step::Finished(Attempt::Failure(Failure::NoParentDirectory), n),
            Some(start) => try_toplevel(start.as_str(), replies, n),
        },
    }
}

/// The worktree that a path lies in.
pub fn git_root(style: PathStyle, of: &str, replies: &Vec<Reply>, at: usize) -> (step: Step<
    String,
>)
    ensures
        step.deep_view() == git_root_step(style, of@, replies.deep_view(), at as int),
{
    insist(try_git_root(style, of, replies, at))
}

/// The globs that the user's exclusions stand for.
pub open spec fn exclusions(
    style: PathStyle,
    home: Option<Seq<char>>,
    values: Seq<Seq<char>>,
) -> Result<Seq<Seq<char>>, FailureView>
    decreases values.len(),
{
    if values.len() == 0 {
        Ok(Seq::empty())
    } else {
        match exclusions(style, home, values.drop_last()) {
            Err(f) => Err(f),
            Ok(before) => match expanded(style, values.last(), home) {
                None => Err(FailureView::HomeUnknown),
                Some(path) => match glob_problem(slashed(readable(path))) {
                    None => Ok(before.push(slashed(readable(path)))),
                    Some(cause) => Err(
                        FailureView::InvalidPattern { pattern: values.last(), cause },
                    ),
                },
            },
        }
    }
}

proof fn exclusions_fail_early(
    style: PathStyle,
    home: Option<Seq<char>>,
    values: Seq<Seq<char>>,
    i: int,
)
    requires
        0 <= i <= values.len(),
        exclusions(style, home, values.take(i)) is Err,
    ensures
        exclusions(style, home, values) == exclusions(style, home, values.take(i)),
    decreases values.len() - i,
{
    if i < values.len() {
        assert(values.take(i + 1).drop_last() =~= values.take(i));
        exclusions_fail_early(style, home, values, i + 1);
    } else {
        assert(values.take(i) =~= values);
    }
}

proof fn slashed_has_no_backslash(path: Seq<char>)
    ensures
        !slashed(path).contains('\\'),
{
}

/// The set of the globs that the user's exclusions stand for. Whether a set
/// that is not empty gets too large is not said.
pub fn build_excludes(style: PathStyle, home: &Option<String>, values: &Vec<String>) -> (r: Result<
    globset::GlobSet,
    Failure,
>)
    ensures
        match exclusions(style, home.deep_view(), values.deep_view()) {
            Err(failure) => r matches Err(f) && f.deep_view() == failure,
            Ok(patterns) => match r {
                Ok(set) => set_patterns(set) == patterns,
                Err(f) => f.deep_view() is PatternsRefused && patterns.len() > 0,
            },
        },
{
    let mut builder = new_glob_set();
    let ghost all = values.deep_view();
    let mut i: usize = 0;
    while i < values.len()
        invariant
            i <= values@.len(),
            all == values.deep_view(),
            exclusions(style, home.deep_view(), all.take(i as int)) == Ok::<_, FailureView>(
                builder_patterns(builder),
            ),
        decreases values@.len() - i,
    {
        proof {
            assert(all.take(i + 1).drop_last() =~= all.take(i as int));
            if exclusions(style, home.deep_view(), all.take(i + 1)) is Err {
                exclusions_fail_early(style, home.deep_view(), all, i + 1);
            }
        }
        match expand_path_from(style, values[i].as_str(), home) {
            Err(f) => {
                return Err(f);
            },
            Ok(path) => {
                let path = readable_text(path.as_str());
                let pattern = with_slashes(path.as_str());
                proof {
                    slashed_has_no_backslash(path@);
                }
                match new_glob(pattern.as_str()) {
                    Err(cause) => {
                        return Err(Failure::InvalidPattern { pattern: values[i].clone(), cause });
                    },
                    Ok(glob) => {
                        add_glob(&mut builder, glob);
                    },
                }
            },
        }
        i = i + 1;
    }
    assert(all.take(all.len() as int) =~= all);
    match build_glob_set(&builder) {
        Ok(set) => Ok(set),
        Err(cause) => Err(Failure::PatternsRefused(cause)),
    }
}

/// The worktree of a repository that the user names, with the home directory
/// in place. One that is not absolute or lies in no worktree does not count.
pub open spec fn locate_step(
    style: PathStyle,
    home: Option<Seq<char>>,
    value: Seq<char>,
    replies: Seq<ReplyView>,
    at: int,
) -> StepView<Option<Seq<char>>> {
    match expanded(style, value, home) {
        None => StepView::Failed(FailureView::HomeUnknown),
        Some(candidate) => if absolute(style, candidate) {
            match try_git_root_step(style, candidate, replies, at) {
                StepView::Perform(a) => StepView::Perform(a),
                StepView::Failed(f) => StepView::Failed(f),
                StepView::Finished(AttemptView::Success(root), n) => StepView::Finished(
                    Some(root),
                    n,
                ),
                StepView::Finished(AttemptView::Failure(f), n) => match report_step(
                    "skipping "@ + candidate,
                    f,
                    replies,
                    n,
                ) {
                    StepView::Perform(a) => StepView::Perform(a),
                    StepView::Failed(f) => StepView::Failed(f),
                    StepView::Finished(_, n) => StepView::Finished(None, n),
                },
            }
        } else {
            match tell_step(
                "repository path must be absolute or start with ~: "@ + value,
                replies,
                at,
            ) {
                StepView::Perform(a) => StepView::Perform(a),
                StepView::Failed(f) => StepView::Failed(f),
                StepView::Finished(_, n) => StepView::Finished(None, n),
            }
        },
    }
}

/// The worktrees that the repositories lie in that the user names.
pub open spec fn explicit_step(
    style: PathStyle,
    home: Option<Seq<char>>,
    repositories: Seq<RepositoryView>,
    replies: Seq<ReplyView>,
    at: int,
) -> StepView<Seq<Seq<char>>>
    decreases repositories.len(),
{
    if repositories.len() == 0 {
        StepView::Finished(Seq::empty(), at)
    } else {
        match explicit_step(style, home, repositories.drop_last(), replies, at) {
            StepView::Perform(a) => StepView::Perform(a),
            StepView::Failed(f) => StepView::Failed(f),
            StepView::Finished(before, n) => match locate_step(
                style,
                home,
                repositories.last().path(),
                replies,
                n,
            ) {
                StepView::Perform(a) => StepView::Perform(a),
                StepView::Failed(f) => StepView::Failed(f),
                StepView::Finished(Some(root), n) => StepView::Finished(before.push(root), n),
                StepView::Finished(None, n) => StepView::Finished(before, n),
            },
        }
    }
}

/// The worktrees below a discovery root, which counts only where it is a directory.
pub open spec fn below_step(
    root: Seq<char>,
    depth: usize,
    replies: Seq<ReplyView>,
    at: int,
) -> StepView<Seq<Seq<char>>> {
    match flag_step(
        replies,
        at,
        ActionView::AreDirectories(seq![root]),
        "failed to inspect "@ + root,
    ) {
        StepView::Perform(a) => StepView::Perform(a),
        StepView::Failed(f) => StepView::Failed(f),
        StepView::Finished(false, n) => match tell_step(
            "discovery root does not exist: "@ + root,
            replies,
            n,
        ) {
            StepView::Perform(a) => StepView::Perform(a),
            StepView::Failed(f) => StepView::Failed(f),
            StepView::Finished(_, n) => StepView::Finished(Seq::empty(), n),
        },
        StepView::Finished(true, n) => match reply_step(
            replies,
            n,
            ActionView::Walk(root, depth),
            "failed to search "@ + root,
        ) {
            StepView::Perform(a) => StepView::Perform(a),
            StepView::Failed(f) => StepView::Failed(f),
            StepView::Finished(ReplyView::Found(found), n) => StepView::Finished(found, n),
            StepView::Finished(ReplyView::Stuck(path, cause), _) => StepView::Failed(
                FailureView::Unavailable { context: "failed to canonicalize "@ + path, cause },
            ),
            StepView::Finished(_, _) => StepView::Failed(FailureView::UnexpectedReply),
        },
    }
}

/// The worktrees below the discovery roots, one root behind the other. A root
/// that is not absolute does not count.
pub open spec fn walk_step(
    style: PathStyle,
    home: Option<Seq<char>>,
    roots: Seq<Seq<char>>,
    depth: usize,
    replies: Seq<ReplyView>,
    at: int,
) -> StepView<Seq<Seq<char>>>
    decreases roots.len(),
{
    if roots.len() == 0 {
        StepView::Finished(Seq::empty(), at)
    } else {
        match walk_step(style, home, roots.drop_last(), depth, replies, at) {
            StepView::Perform(a) => StepView::Perform(a),
            StepView::Failed(f) => StepView::Failed(f),
            StepView::Finished(before, n) => match expanded(style, roots.last(), home) {
                None => StepView::Failed(FailureView::HomeUnknown),
                Some(root) => if absolute(style, root) {
                    match below_step(root, depth, replies, n) {
                        StepView::Perform(a) => StepView::Perform(a),
                        StepView::Failed(f) => StepView::Failed(f),
                        StepView::Finished(found, n) => StepView::Finished(before + found, n),
                    }
                } else {
                    match tell_step(
                        "discovery root must be absolute or start with ~: "@ + roots.last(),
                        replies,
                        n,
                    ) {
                        StepView::Perform(a) => StepView::Perform(a),
                        StepView::Failed(f) => StepView::Failed(f),
                        StepView::Finished(_, n) => StepView::Finished(before, n),
                    }
                },
            },
        }
    }
}

/// All worktrees that the configuration leads to, before the exclusions.
pub open spec fn candidates_step(
    config: RuntimeView,
    replies: Seq<ReplyView>,
    at: int,
) -> StepView<Seq<Seq<char>>> {
    match explicit_step(
        config.style,
        config.home,
        config.values.repositories,
        replies,
        at,
    ) {
        StepView::Perform(a) => StepView::Perform(a),
        StepView::Failed(f) => StepView::Failed(f),
        StepView::Finished(explicit, n) => match walk_step(
            config.style,
            config.home,
            config.values.discovery_roots,
            config.values.discovery_max_depth,
            replies,
            n,
        ) {
            StepView::Perform(a) => StepView::Perform(a),
            StepView::Failed(f) => StepView::Failed(f),
            StepView::Finished(found, n) => StepView::Finished(explicit + found, n),
        },
    }
}

/// Those of the candidates that are not excluded.
pub open spec fn admitted(candidates: Seq<Seq<char>>, excluded: Seq<bool>) -> Seq<Seq<char>>
    decreases candidates.len(),
{
    if candidates.len() == 0 {
        Seq::empty()
    } else if excluded[candidates.len() - 1] {
        admitted(candidates.drop_last(), excluded)
    } else {
        admitted(candidates.drop_last(), excluded).push(candidates.last())
    }
}

/// The bytes of a path that globs are matched with. On Windows a path is text
/// to them.
pub open spec fn matched_bytes(style: PathStyle, path: Seq<char>) -> Seq<u8> {
    path_bytes(
        if style == PathStyle::Windows {
            readable(git_form(style, path))
        } else {
            path
        },
    )
}

/// Whether globs are matched with a backslash for this path.
pub open spec fn has_backslash(style: PathStyle, path: Seq<char>) -> bool {
    matched_bytes(style, path).contains(92u8)
}

/// Whether `excluded` says of each candidate whether one of the globs matches
/// it. Nothing is asked of a candidate with a backslash in it that does not
/// stand between components, unless there are no globs.
pub open spec fn verdicts_agree(
    style: PathStyle,
    patterns: Seq<Seq<char>>,
    candidates: Seq<Seq<char>>,
    excluded: Seq<bool>,
) -> bool {
    &&& excluded.len() == candidates.len()
    &&& forall|i: int|
        0 <= i < candidates.len() && !has_backslash(style, candidates[i])
            ==> #[trigger] excluded[i] == any_glob_matches(
            patterns,
            matched_bytes(style, candidates[i]),
        )
    &&& patterns.len() == 0 ==> forall|i: int|
        0 <= i < candidates.len() ==> !#[trigger] excluded[i]
}

/// The worktrees to watch, in order, given which of the candidates are excluded.
pub open spec fn among_step(
    config: RuntimeView,
    excluded: Seq<bool>,
    replies: Seq<ReplyView>,
    at: int,
) -> StepView<Seq<Seq<char>>> {
    match candidates_step(config, replies, at) {
        StepView::Perform(a) => StepView::Perform(a),
        StepView::Failed(f) => StepView::Failed(f),
        StepView::Finished(candidates, n) => StepView::Finished(
            path_set(config.style, admitted(candidates, excluded)),
            n,
        ),
    }
}

/// Whether `excluded` is what these globs come to.
pub open spec fn globs_allow(
    config: RuntimeView,
    patterns: Seq<Seq<char>>,
    excluded: Seq<bool>,
    replies: Seq<ReplyView>,
    at: int,
) -> bool {
    candidates_step(config, replies, at) matches StepView::Finished(candidates, _)
        ==> verdicts_agree(config.style, patterns, candidates, excluded)
}

/// The worktrees to watch, in order, given which of the candidates are
/// excluded and why the exclusions were refusal, if they were.
pub open spec fn discover_step(
    config: RuntimeView,
    refusal: Option<Seq<char>>,
    excluded: Seq<bool>,
    replies: Seq<ReplyView>,
    at: int,
) -> StepView<Seq<Seq<char>>> {
    match exclusions(config.style, config.home, config.values.exclude_repositories) {
        Err(f) => StepView::Failed(f),
        Ok(_) => match refusal {
            Some(cause) => StepView::Failed(FailureView::PatternsRefused(cause)),
            None => among_step(config, excluded, replies, at),
        },
    }
}

/// Whether `refusal` and `excluded` are what the exclusions can come to.
pub open spec fn exclusions_allow(
    config: RuntimeView,
    refusal: Option<Seq<char>>,
    excluded: Seq<bool>,
    replies: Seq<ReplyView>,
    at: int,
) -> bool {
    match exclusions(config.style, config.home, config.values.exclude_repositories) {
        Err(_) => true,
        Ok(patterns) => {
            &&& refusal is Some ==> patterns.len() > 0
            &&& refusal is None ==> globs_allow(config, patterns, excluded, replies, at)
        },
    }
}

proof fn explicit_stops_early(
    style: PathStyle,
    home: Option<Seq<char>>,
    repositories: Seq<RepositoryView>,
    replies: Seq<ReplyView>,
    at: int,
    i: int,
)
    requires
        0 <= i <= repositories.len(),
        !(explicit_step(style, home, repositories.take(i), replies, at) is Finished),
    ensures
        explicit_step(style, home, repositories, replies, at) == explicit_step(
            style,
            home,
            repositories.take(i),
            replies,
            at,
        ),
    decreases repositories.len() - i,
{
    if i < repositories.len() {
        assert(repositories.take(i + 1).drop_last() =~= repositories.take(i));
        explicit_stops_early(style, home, repositories, replies, at, i + 1);
    } else {
        assert(repositories.take(i) =~= repositories);
    }
}

fn locate(
    style: PathStyle,
    home: &Option<String>,
    value: &str,
    replies: &Vec<Reply>,
    at: usize,
) -> (step: Step<Option<String>>)
    ensures
        step.deep_view() == locate_step(
            style,
            home.deep_view(),
            value@,
            replies.deep_view(),
            at as int,
        ),
{
    let candidate = match expand_path_from(style, value, home) {
        Ok(candidate) => candidate,
        Err(f) => {
            return Step::Failed(f);
        },
    };
    if !is_absolute(style, candidate.as_str()) {
        let text = join2("repository path must be absolute or start with ~: ", value);
        return match tell(text, replies, at) {
            Step::Perform(a) => Step::Perform(a),
            Step::Failed(f) => Step::Failed(f),
            Step::Finished(_, n) => Step::Finished(None, n),
        };
    }
    match try_git_root(style, candidate.as_str(), replies, at) {
        Step::Perform(a) => Step::Perform(a),
        Step::Failed(f) => Step::Failed(f),
        Step::Finished(Attempt::Success(root), n) => Step::Finished(Some(root), n),
        Step::Finished(Attempt::Failure(f), n) => match report(
            join2("skipping ", candidate.as_str()),
            f,
            replies,
            n,
        ) {
            Step::Perform(a) => Step::Perform(a),
            Step::Failed(f) => Step::Failed(f),
            Step::Finished(_, n) => Step::Finished(None, n),
        },
    }
}

fn explicit(config: &RuntimeConfig, replies: &Vec<Reply>, at: usize) -> (step: Step<Vec<String>>)
    ensures
        step.deep_view() == explicit_step(
            config.style,
            config.home.deep_view(),
            config.values.repositories.deep_view(),
            replies.deep_view(),
            at as int,
        ),
{
    let style = config.style;
    let ghost home = config.home.deep_view();
    let ghost all = config.values.repositories.deep_view();
    let ghost given = replies.deep_view();
    let mut list: Vec<String> = Vec::new();
    let mut n: usize = at;
    let mut i: usize = 0;
    assert(list.deep_view() =~= Seq::empty());
    while i < config.values.repositories.len()
        invariant
            i <= config.values.repositories@.len(),
            style == config.style,
            home == config.home.deep_view(),
            all == config.values.repositories.deep_view(),
            given == replies.deep_view(),
            explicit_step(style, home, all.take(i as int), given, at as int) == StepView::Finished(
                list.deep_view(),
                n as int,
            ),
        decreases config.values.repositories@.len() - i,
    {
        let ghost before = list.deep_view();
        let value = config.values.repositories[i].path();
        proof {
            assert(all.take(i + 1).drop_last() =~= all.take(i as int));
            assert(all.take(i + 1).last().path() == value@);
            if !(explicit_step(style, home, all.take(i + 1), given, at as int) is Finished) {
                explicit_stops_early(style, home, all, given, at as int, i + 1);
            }
        }
        match locate(style, &config.home, value, replies, n) {
            Step::Perform(a) => {
                return Step::Perform(a);
            },
            Step::Failed(f) => {
                return Step::Failed(f);
            },
            Step::Finished(Some(root), used) => {
                list.push(root);
                assert(list.deep_view() =~= before.push(root@));
                n = used;
            },
            Step::Finished(None, used) => {
                n = used;
            },
        }
        i = i + 1;
    }
    assert(all.take(all.len() as int) =~= all);
    Step::Finished(list, n)
}

fn below(root: &str, depth: usize, replies: &Vec<Reply>, at: usize) -> (step: Step<Vec<String>>)
    ensures
        step.deep_view() == below_step(root@, depth, replies.deep_view(), at as int),
{
    let inspecting = join2("failed to inspect ", root);
    let one = vec![root.to_owned()];
    assert(one.deep_view() =~= seq![root@]);
    match flag(replies, at, Action::AreDirectories(one), inspecting.as_str()) {
        Step::Perform(a) => Step::Perform(a),
        Step::Failed(f) => Step::Failed(f),
        Step::Finished(false, n) => match tell(
            join2("discovery root does not exist: ", root),
            replies,
            n,
        ) {
            Step::Perform(a) => Step::Perform(a),
            Step::Failed(f) => Step::Failed(f),
            Step::Finished(_, n) => {
                let none: Vec<String> = Vec::new();
                assert(none.deep_view() =~= Seq::empty());
                Step::Finished(none, n)
            },
        },
        Step::Finished(true, n) => {
            let searching = join2("failed to search ", root);
            match reply_to(replies, n, Action::Walk(root.to_owned(), depth), searching.as_str()) {
                Step::Perform(a) => Step::Perform(a),
                Step::Failed(f) => Step::Failed(f),
                Step::Finished(Reply::Found(found), n) => Step::Finished(copy_texts(found), n),
                Step::Finished(Reply::Stuck(path, cause), _) => Step::Failed(
                    Failure::Unavailable {
                        context: join2("failed to canonicalize ", path.as_str()),
                        cause: cause.clone(),
                    },
                ),
                Step::Finished(_, _) => Step::Failed(Failure::UnexpectedReply),
            }
        },
    }
}

proof fn walk_stops_early(
    style: PathStyle,
    home: Option<Seq<char>>,
    roots: Seq<Seq<char>>,
    depth: usize,
    replies: Seq<ReplyView>,
    at: int,
    i: int,
)
    requires
        0 <= i <= roots.len(),
        !(walk_step(style, home, roots.take(i), depth, replies, at) is Finished),
    ensures
        walk_step(style, home, roots, depth, replies, at) == walk_step(
            style,
            home,
            roots.take(i),
            depth,
            replies,
            at,
        ),
    decreases roots.len() - i,
{
    if i < roots.len() {
        assert(roots.take(i + 1).drop_last() =~= roots.take(i));
        walk_stops_early(style, home, roots, depth, replies, at, i + 1);
    } else {
        assert(roots.take(i) =~= roots);
    }
}

fn add_texts(list: &mut Vec<String>, more: &Vec<String>)
    ensures
        final(list).deep_view() == old(list).deep_view() + more.deep_view(),
{
    let ghost before = list.deep_view();
    let mut i: usize = 0;
    while i < more.len()
        invariant
            i <= more@.len(),
            list.deep_view() =~= before + more.deep_view().take(i as int),
        decreases more@.len() - i,
    {
        let ghost so_far = list.deep_view();
        list.push(more[i].clone());
        assert(list.deep_view() =~= so_far.push(more@[i as int]@));
        assert(more.deep_view().take(i + 1) =~= more.deep_view().take(i as int).push(
            more@[i as int]@,
        ));
        i = i + 1;
    }
    assert(more.deep_view().take(more@.len() as int) =~= more.deep_view());
}

fn walk(config: &RuntimeConfig, replies: &Vec<Reply>, at: usize) -> (step: Step<Vec<String>>)
    ensures
        step.deep_view() == walk_step(
            config.style,
            config.home.deep_view(),
            config.values.discovery_roots.deep_view(),
            config.values.discovery_max_depth,
            replies.deep_view(),
            at as int,
        ),
{
    let style = config.style;
    let depth: usize = config.values.discovery_max_depth;
    let ghost home = config.home.deep_view();
    let ghost all = config.values.discovery_roots.deep_view();
    let ghost given = replies.deep_view();
    let mut list: Vec<String> = Vec::new();
    let mut n: usize = at;
    let mut i: usize = 0;
    assert(list.deep_view() =~= Seq::empty());
    while i < config.values.discovery_roots.len()
        invariant
            i <= config.values.discovery_roots@.len(),
            style == config.style,
            depth == config.values.discovery_max_depth,
            home == config.home.deep_view(),
            all == config.values.discovery_roots.deep_view(),
            given == replies.deep_view(),
            walk_step(style, home, all.take(i as int), depth, given, at as int)
                == StepView::Finished(list.deep_view(), n as int),
        decreases config.values.discovery_roots@.len() - i,
    {
        let value = config.values.discovery_roots[i].as_str();
        proof {
            assert(all.take(i + 1).drop_last() =~= all.take(i as int));
            if !(walk_step(style, home, all.take(i + 1), depth, given, at as int) is Finished) {
                walk_stops_early(style, home, all, depth, given, at as int, i + 1);
            }
        }
        match expand_path_from(style, value, &config.home) {
            Err(f) => {
                return Step::Failed(f);
            },
            Ok(root) => {
                if is_absolute(style, root.as_str()) {
                    match below(root.as_str(), depth, replies, n) {
                        Step::Perform(a) => {
                            return Step::Perform(a);
                        },
                        Step::Failed(f) => {
                            return Step::Failed(f);
                        },
                        Step::Finished(found, used) => {
                            add_texts(&mut list, &found);
                            n = used;
                        },
                    }
                } else {
                    let text = join2("discovery root must be absolute or start with ~: ", value);
                    match tell(text, replies, n) {
                        Step::Perform(a) => {
                            return Step::Perform(a);
                        },
                        Step::Failed(f) => {
                            return Step::Failed(f);
                        },
                        Step::Finished(_, used) => {
                            n = used;
                        },
                    }
                }
            },
        }
        i = i + 1;
    }
    assert(all.take(all.len() as int) =~= all);
    Step::Finished(list, n)
}

fn candidates(config: &RuntimeConfig, replies: &Vec<Reply>, at: usize) -> (step: Step<Vec<String>>)
    ensures
        step.deep_view() == candidates_step(config.deep_view(), replies.deep_view(), at as int),
{
    match explicit(config, replies, at) {
        Step::Perform(a) => Step::Perform(a),
        Step::Failed(f) => Step::Failed(f),
        Step::Finished(explicit, n) => match walk(config, replies, n) {
            Step::Perform(a) => Step::Perform(a),
            Step::Failed(f) => Step::Failed(f),
            Step::Finished(found, n) => {
                let mut list = explicit;
                add_texts(&mut list, &found);
                Step::Finished(list, n)
            },
        },
    }
}

/// The worktrees to watch, in order, given which of the candidates are excluded.
pub fn choose_admitted(style: PathStyle, candidates: &Vec<String>, excluded: &Vec<bool>) -> (list: Vec<
    String,
>)
    requires
        excluded@.len() == candidates@.len(),
    ensures
        list.deep_view() == path_set(style, admitted(candidates.deep_view(), excluded@)),
{
    let ghost all = candidates.deep_view();
    let mut list: Vec<String> = Vec::new();
    let mut i: usize = 0;
    assert(list.deep_view() =~= path_set(style, admitted(all.take(0), excluded@)));
    while i < candidates.len()
        invariant
            i <= candidates@.len(),
            excluded@.len() == candidates@.len(),
            all == candidates.deep_view(),
            list.deep_view() == path_set(style, admitted(all.take(i as int), excluded@)),
        decreases candidates@.len() - i,
    {
        assert(all.take(i + 1).drop_last() =~= all.take(i as int));
        if !excluded[i] {
            insert_path(style, &mut list, candidates[i].clone());
            let ghost before = admitted(all.take(i as int), excluded@);
            assert(before.push(all[i as int]).drop_last() =~= before);
        }
        i = i + 1;
    }
    assert(all.take(all.len() as int) =~= all);
    list
}

fn exclude(style: PathStyle, set: &globset::GlobSet, candidates: &Vec<String>) -> (excluded: Vec<
    bool,
>)
    ensures
        verdicts_agree(style, set_patterns(*set), candidates.deep_view(), excluded@),
{
    let mut excluded: Vec<bool> = Vec::new();
    let ghost patterns = set_patterns(*set);
    let ghost all = candidates.deep_view();
    let mut i: usize = 0;
    while i < candidates.len()
        invariant
            i <= candidates@.len(),
            excluded@.len() == i,
            patterns == set_patterns(*set),
            all == candidates.deep_view(),
            forall|j: int|
                0 <= j < i && !has_backslash(style, all[j]) ==> #[trigger] excluded@[j]
                    == any_glob_matches(patterns, matched_bytes(style, all[j])),
            patterns.len() == 0 ==> forall|j: int| 0 <= j < i ==> !#[trigger] excluded@[j],
        decreases candidates@.len() - i,
    {
        let path = if style == PathStyle::Windows {
            readable_text(git_path(style, candidates[i].as_str()).as_str())
        } else {
            candidates[i].clone()
        };
        let bytes = bytes_of_path(path.as_str());
        excluded.push(glob_set_matches(set, &bytes));
        i = i + 1;
    }
    excluded
}

/// The worktrees to watch, in order, given the globs of what is excluded.
pub fn discover_among(
    config: &RuntimeConfig,
    set: &globset::GlobSet,
    replies: &Vec<Reply>,
    at: usize,
) -> (step: Step<Vec<String>>)
    ensures
        exists|excluded: Seq<bool>| #[trigger]
            globs_allow(
                config.deep_view(),
                set_patterns(*set),
                excluded,
                replies.deep_view(),
                at as int,
            ) && step.deep_view() == among_step(
                config.deep_view(),
                excluded,
                replies.deep_view(),
                at as int,
            ),
{
    let ghost view = config.deep_view();
    let ghost given = replies.deep_view();
    let ghost patterns = set_patterns(*set);
    match candidates(config, replies, at) {
        Step::Perform(a) => {
            assert(globs_allow(view, patterns, Seq::empty(), given, at as int));
            Step::Perform(a)
        },
        Step::Failed(f) => {
            assert(globs_allow(view, patterns, Seq::empty(), given, at as int));
            Step::Failed(f)
        },
        Step::Finished(candidates, n) => {
            let excluded = exclude(config.style, set, &candidates);
            assert(globs_allow(view, patterns, excluded@, given, at as int));
            Step::Finished(choose_admitted(config.style, &candidates, &excluded), n)
        },
    }
}

/// The worktrees to watch, in order.
pub fn discover(config: &RuntimeConfig, replies: &Vec<Reply>, at: usize) -> (step: Step<
    Vec<String>,
>)
    ensures
        exists|refusal: Option<Seq<char>>, excluded: Seq<bool>| #[trigger]
            exclusions_allow(
                config.deep_view(),
                refusal,
                excluded,
                replies.deep_view(),
                at as int,
            ) && step.deep_view() == discover_step(
                config.deep_view(),
                refusal,
                excluded,
                replies.deep_view(),
                at as int,
            ),
{
    let ghost view = config.deep_view();
    let ghost given = replies.deep_view();
    match build_excludes(config.style, &config.home, &config.values.exclude_repositories) {
        Err(f) => {
            proof {
                let refusal = match f.deep_view() {
                    FailureView::PatternsRefused(cause) => Some(cause),
                    _ => Some(Seq::empty()),
                };
                assert(exclusions_allow(view, refusal, Seq::empty(), given, at as int));
            }
            Step::Failed(f)
        },
        Ok(set) => {
            let step = discover_among(config, &set, replies, at);
            proof {
                let excluded = choose|excluded: Seq<bool>| #[trigger]
                    globs_allow(view, set_patterns(set), excluded, given, at as int)
                        && step.deep_view() == among_step(view, excluded, given, at as int);
                assert(exclusions_allow(view, None, excluded, given, at as int));
            }
            step
        },
    }
}

} // verus!
