//! The command line of the backend.

use crate::text;
use vstd::prelude::*;

verus! {

/// Bytes that the benchmark asks for unless told otherwise.
pub const DEFAULT_BENCH_LEN: u32 = 262144;

/// An option that takes a value.
#[derive(Clone, Copy, Debug, PartialEq, Eq, Structural)]
pub enum Flag {
    ConnectTo,
    Token,
    State,
    BenchBytes,
}

/// Why a command line is refused.
#[derive(Debug, PartialEq, Eq)]
pub enum ArgError {
    /// The option's value is missing.
    MissingValue(Flag),
    /// The value of `--bench-bytes` is no `u32`.
    NotU32,
    /// No option has this name.
    Unknown(String),
}

/// What the backend is asked to do.
#[derive(Debug, PartialEq, Eq)]
pub struct Options {
    /// Address to dial: a relay, or the device's bridge directly.
    pub peer: String,
    /// The invite to pair with.
    pub token: Option<String>,
    /// Bytes that the benchmark asks for.
    pub bench_len: u32,
    /// The state file; its presence selects reconnecting over pairing.
    pub state_path: String,
    /// Answer the device's requests instead of making requests.
    pub serve: bool,
    /// Address that the tool server listens on.
    pub mcp_addr: Option<String>,
    /// Answer the device's chat messages by itself.
    pub auto_reply: bool,
}

/// Options, over texts.
#[verifier::ext_equal]
pub struct OptionsView {
    pub peer: Seq<char>,
    pub token: Option<Seq<char>>,
    pub bench_len: u32,
    pub state_path: Seq<char>,
    pub serve: bool,
    pub mcp_addr: Option<Seq<char>>,
    pub auto_reply: bool,
}

/// An error, over texts.
pub enum ArgErrorView {
    MissingValue(Flag),
    NotU32,
    Unknown(Seq<char>),
}

impl View for Options {
    type V = OptionsView;

    open spec fn view(&self) -> OptionsView {
        OptionsView {
            peer: self.peer@,
            token: match self.token {
                Some(token) => Some(token@),
                None => None,
            },
            bench_len: self.bench_len,
            state_path: self.state_path@,
            serve: self.serve,
            mcp_addr: match self.mcp_addr {
                Some(addr) => Some(addr@),
                None => None,
            },
            auto_reply: self.auto_reply,
        }
    }
}

impl View for ArgError {
    type V = ArgErrorView;

    open spec fn view(&self) -> ArgErrorView {
        match self {
            ArgError::MissingValue(flag) => ArgErrorView::MissingValue(*flag),
            ArgError::NotU32 => ArgErrorView::NotU32,
            ArgError::Unknown(name) => ArgErrorView::Unknown(name@),
        }
    }
}

/// The texts of a command line.
pub open spec fn words(args: Seq<String>) -> Seq<Seq<char>> {
    args.map_values(|arg: String| arg@)
}

/// What is done where nothing is asked.
pub open spec fn default_options() -> OptionsView {
    OptionsView {
        peer: "127.0.0.1:8766"@,
        token: None,
        bench_len: DEFAULT_BENCH_LEN,
        state_path: "/tmp/ql-link-lab-peer.state"@,
        serve: false,
        mcp_addr: None,
        auto_reply: false,
    }
}

/// The options that the words add to `so_far`, read from left to right; the first fault ends
/// the reading. `mcp` tells whether there is a tool server: without one its options are
/// unknown. `--mcp` takes the next word as its address, if there is one.
pub open spec fn parsed(args: Seq<Seq<char>>, so_far: OptionsView, mcp: bool) -> Result<
    OptionsView,
    ArgErrorView,
>
    decreases args.len(),
{
    if args.len() == 0 {
        Ok(so_far)
    } else {
        let word = args.first();
        let rest = args.drop_first();
        if word == "--connect-to"@ {
            if rest.len() == 0 {
                Err(ArgErrorView::MissingValue(Flag::ConnectTo))
            } else {
                parsed(rest.drop_first(), OptionsView { peer: rest.first(), ..so_far }, mcp)
            }
        } else if word == "--token"@ {
            if rest.len() == 0 {
                Err(ArgErrorView::MissingValue(Flag::Token))
            } else {
                parsed(rest.drop_first(), OptionsView { token: Some(rest.first()), ..so_far }, mcp)
            }
        } else if word == "--state"@ {
            if rest.len() == 0 {
                Err(ArgErrorView::MissingValue(Flag::State))
            } else {
                parsed(rest.drop_first(), OptionsView { state_path: rest.first(), ..so_far }, mcp)
            }
        } else if word == "--serve"@ {
            parsed(rest, OptionsView { serve: true, ..so_far }, mcp)
        } else if word == "--bench-bytes"@ {
            if rest.len() == 0 {
                Err(ArgErrorView::MissingValue(Flag::BenchBytes))
            } else {
                match text::u32_of_text(rest.first()) {
                    Some(n) => parsed(
                        rest.drop_first(),
                        OptionsView { bench_len: n, ..so_far },
                        mcp,
                    ),
                    None => Err(ArgErrorView::NotU32),
                }
            }
        } else if mcp && word == "--mcp"@ {
            if rest.len() == 0 {
                Ok(OptionsView { mcp_addr: Some("127.0.0.1:8780"@), ..so_far })
            } else {
                parsed(
                    rest.drop_first(),
                    OptionsView { mcp_addr: Some(rest.first()), ..so_far },
                    mcp,
                )
            }
        } else if mcp && word == "--auto-reply"@ {
            parsed(rest, OptionsView { auto_reply: true, ..so_far }, mcp)
        } else {
            Err(ArgErrorView::Unknown(word))
        }
    }
}

/// Reads the command line of the backend.
pub fn parse_args(args: &Vec<String>, mcp: bool) -> (out: Result<Options, ArgError>)
    ensures
        match out {
            Ok(options) => parsed(words(args@), default_options(), mcp) == Ok::<
                OptionsView,
                ArgErrorView,
            >(options@),
            Err(e) => parsed(words(args@), default_options(), mcp) == Err::<
                OptionsView,
                ArgErrorView,
            >(e@),
        },
{
    let mut options = Options {
        peer: "127.0.0.1:8766".to_owned(),
        token: None,
        bench_len: DEFAULT_BENCH_LEN,
        state_path: "/tmp/ql-link-lab-peer.state".to_owned(),
        serve: false,
        mcp_addr: None,
        auto_reply: false,
    };
    let ghost all = words(args@);
    let len: usize = args.len();
    let mut i: usize = 0;
    assert(all.skip(0) == all);
    assert(options@ =~= default_options());
    while i < len
        invariant
            len == args@.len(),
            i <= len,
            all == words(args@),
            parsed(all, default_options(), mcp) == parsed(all.skip(i as int), options@, mcp),
        decreases len - i,
    {
        let ghost before = options@;
        let word = args[i].as_str();
        let ghost left = all.skip(i as int);
        proof {
            assert(left.first() == word@);
            assert(left.drop_first() == all.skip(i + 1));
            if i + 1 < len {
                assert(all.skip(i + 1).drop_first() == all.skip(i + 2));
                assert(all.skip(i + 1).first() == args@[i + 1]@);
            }
        }
        i += 1;
        if text::same(word, "--connect-to") {
            if i == len {
                return Err(ArgError::MissingValue(Flag::ConnectTo));
            }
            options.peer = args[i].clone();
            i += 1;
            assert(options@ =~= (OptionsView { peer: args@[i - 1]@, ..before }));
        } else if text::same(word, "--token") {
            if i == len {
                return Err(ArgError::MissingValue(Flag::Token));
            }
            options.token = Some(args[i].clone());
            i += 1;
            assert(options@ =~= (OptionsView { token: Some(args@[i - 1]@), ..before }));
        } else if text::same(word, "--state") {
            if i == len {
                return Err(ArgError::MissingValue(Flag::State));
            }
            options.state_path = args[i].clone();
            i += 1;
            assert(options@ =~= (OptionsView { state_path: args@[i - 1]@, ..before }));
        } else if text::same(word, "--serve") {
            options.serve = true;
            assert(options@ =~= (OptionsView { serve: true, ..before }));
        } else if text::same(word, "--bench-bytes") {
            if i == len {
                return Err(ArgError::MissingValue(Flag::BenchBytes));
            }
            match text::parse_u32(args[i].as_str()) {
                Some(n) => {
                    options.bench_len = n;
                },
                None => {
                    return Err(ArgError::NotU32);
                },
            }
            i += 1;
            assert(options@ =~= (OptionsView { bench_len: options.bench_len, ..before }));
        } else if mcp && text::same(word, "--mcp") {
            if i == len {
                options.mcp_addr = Some("127.0.0.1:8780".to_owned());
                assert(options@ =~= (OptionsView {
                    mcp_addr: Some("127.0.0.1:8780"@),
                    ..before
                }));
                return Ok(options);
            }
            options.mcp_addr = Some(args[i].clone());
            i += 1;
            assert(options@ =~= (OptionsView { mcp_addr: Some(args@[i - 1]@), ..before }));
        } else if mcp && text::same(word, "--auto-reply") {
            options.auto_reply = true;
            assert(options@ =~= (OptionsView { auto_reply: true, ..before }));
        } else {
            return Err(ArgError::Unknown(args[i - 1].clone()));
        }
    }
    Ok(options)
}

/// Options are read from left to right, each on top of those before it: where the first words
/// are a whole command line, the others are read as if they stood alone, on top of what the
/// first came to. So the last of two settings of one option counts.
pub proof fn law_args_in_order(first: Seq<Seq<char>>, second: Seq<Seq<char>>, so_far: OptionsView)
    requires
        parsed(first, so_far, false) is Ok,
    ensures
        parsed(first + second, so_far, false) == parsed(
            second,
            parsed(first, so_far, false)->Ok_0,
            false,
        ),
    decreases first.len(),
{
    let all = first + second;
    if first.len() == 0 {
        assert(all =~= second);
    } else {
        let word = first.first();
        let rest = first.drop_first();
        assert(all.first() == word);
        assert(all.drop_first() =~= rest + second);
        if rest.len() > 0 {
            assert((rest + second).first() == rest.first());
            assert((rest + second).drop_first() =~= rest.drop_first() + second);
        }
        let value = rest.first();
        let tail = rest.drop_first();
        if word == "--connect-to"@ {
            law_args_in_order(tail, second, OptionsView { peer: value, ..so_far });
        } else if word == "--token"@ {
            law_args_in_order(tail, second, OptionsView { token: Some(value), ..so_far });
        } else if word == "--state"@ {
            law_args_in_order(tail, second, OptionsView { state_path: value, ..so_far });
        } else if word == "--serve"@ {
            law_args_in_order(rest, second, OptionsView { serve: true, ..so_far });
        } else if word == "--bench-bytes"@ {
            let n = text::u32_of_text(value)->0;
            law_args_in_order(tail, second, OptionsView { bench_len: n, ..so_far });
        }
    }
}

/// The names of the options are all different.
proof fn lemma_option_names()
    ensures
        "--serve"@ != "--connect-to"@,
        "--serve"@ != "--token"@,
        "--serve"@ != "--state"@,
        "--token"@ != "--connect-to"@,
        "--state"@ != "--connect-to"@,
        "--state"@ != "--token"@,
        "--bench-bytes"@ != "--connect-to"@,
        "--bench-bytes"@ != "--token"@,
        "--bench-bytes"@ != "--state"@,
        "--bench-bytes"@ != "--serve"@,
        "--mcp"@ != "--connect-to"@,
        "--mcp"@ != "--token"@,
        "--mcp"@ != "--state"@,
        "--mcp"@ != "--serve"@,
        "--mcp"@ != "--bench-bytes"@,
        "--auto-reply"@ != "--connect-to"@,
        "--auto-reply"@ != "--token"@,
        "--auto-reply"@ != "--state"@,
        "--auto-reply"@ != "--serve"@,
        "--auto-reply"@ != "--bench-bytes"@,
        "--auto-reply"@ != "--mcp"@,
{
    reveal_strlit("--serve");
    reveal_strlit("--connect-to");
    reveal_strlit("--token");
    reveal_strlit("--state");
    reveal_strlit("--bench-bytes");
    reveal_strlit("--mcp");
    reveal_strlit("--auto-reply");
    assert("--serve"@[2] == 's' && "--serve"@[3] == 'e');
    assert("--token"@[2] == 't');
    assert("--state"@[2] == 's' && "--state"@[3] == 't');
    assert("--connect-to"@[2] == 'c');
    assert("--auto-reply"@[2] == 'a');
    assert("--bench-bytes"@[2] == 'b');
    assert("--mcp"@[2] == 'm');
}

/// The words behind the first one, and behind the first two.
proof fn lemma_words(word: Seq<char>, value: Seq<char>, rest: Seq<Seq<char>>)
    ensures
        (seq![word] + rest).first() == word,
        (seq![word] + rest).drop_first() == rest,
        (seq![word, value] + rest).first() == word,
        (seq![word, value] + rest).drop_first().len() == rest.len() + 1,
        (seq![word, value] + rest).drop_first().first() == value,
        (seq![word, value] + rest).drop_first().drop_first() == rest,
        seq![word].first() == word,
        seq![word].drop_first().len() == 0,
{
    assert((seq![word] + rest).drop_first() =~= rest);
    let two = seq![word, value] + rest;
    assert(two.drop_first().drop_first() =~= rest);
}

/// `--serve` switches serving on and changes nothing else, wherever it stands.
pub proof fn law_serve_option(so_far: OptionsView, rest: Seq<Seq<char>>, mcp: bool)
    ensures
        parsed(seq!["--serve"@], so_far, mcp) == Ok::<OptionsView, ArgErrorView>(
            OptionsView {
                peer: so_far.peer,
                token: so_far.token,
                bench_len: so_far.bench_len,
                state_path: so_far.state_path,
                serve: true,
                mcp_addr: so_far.mcp_addr,
                auto_reply: so_far.auto_reply,
            },
        ),
        parsed(seq!["--serve"@] + rest, so_far, mcp) == parsed(
            rest,
            OptionsView { serve: true, ..so_far },
            mcp,
        ),
{
    lemma_option_names();
    lemma_words("--serve"@, Seq::empty(), rest);
    lemma_words("--serve"@, Seq::empty(), Seq::empty());
    assert(seq!["--serve"@] + Seq::<Seq<char>>::empty() =~= seq!["--serve"@]);
    assert(parsed(Seq::empty(), OptionsView { serve: true, ..so_far }, mcp) == Ok::<
        OptionsView,
        ArgErrorView,
    >(OptionsView { serve: true, ..so_far }));
}

/// `--token`, `--connect-to` and `--state` take the next word as their value, whatever it is, and
/// change nothing else; without a next word they are refused.
pub proof fn law_text_options(
    so_far: OptionsView,
    value: Seq<char>,
    rest: Seq<Seq<char>>,
    mcp: bool,
)
    ensures
        parsed(seq!["--token"@, value] + rest, so_far, mcp) == parsed(
            rest,
            OptionsView {
                peer: so_far.peer,
                token: Some(value),
                bench_len: so_far.bench_len,
                state_path: so_far.state_path,
                serve: so_far.serve,
                mcp_addr: so_far.mcp_addr,
                auto_reply: so_far.auto_reply,
            },
            mcp,
        ),
        parsed(seq!["--connect-to"@, value] + rest, so_far, mcp) == parsed(
            rest,
            OptionsView {
                peer: value,
                token: so_far.token,
                bench_len: so_far.bench_len,
                state_path: so_far.state_path,
                serve: so_far.serve,
                mcp_addr: so_far.mcp_addr,
                auto_reply: so_far.auto_reply,
            },
            mcp,
        ),
        parsed(seq!["--state"@, value] + rest, so_far, mcp) == parsed(
            rest,
            OptionsView {
                peer: so_far.peer,
                token: so_far.token,
                bench_len: so_far.bench_len,
                state_path: value,
                serve: so_far.serve,
                mcp_addr: so_far.mcp_addr,
                auto_reply: so_far.auto_reply,
            },
            mcp,
        ),
        parsed(seq!["--token"@], so_far, mcp) == Err::<OptionsView, ArgErrorView>(
            ArgErrorView::MissingValue(Flag::Token),
        ),
        parsed(seq!["--connect-to"@], so_far, mcp) == Err::<OptionsView, ArgErrorView>(
            ArgErrorView::MissingValue(Flag::ConnectTo),
        ),
        parsed(seq!["--state"@], so_far, mcp) == Err::<OptionsView, ArgErrorView>(
            ArgErrorView::MissingValue(Flag::State),
        ),
{
    lemma_option_names();
    lemma_words("--token"@, value, rest);
    lemma_words("--connect-to"@, value, rest);
    lemma_words("--state"@, value, rest);
}

/// `--bench-bytes` takes the next word as a number, and changes nothing else; it is refused
/// without a next word, or where that writes no `u32`.
pub proof fn law_bench_option(
    so_far: OptionsView,
    value: Seq<char>,
    rest: Seq<Seq<char>>,
    mcp: bool,
)
    ensures
        text::u32_of_text(value) matches Some(n) ==> parsed(
            seq!["--bench-bytes"@, value] + rest,
            so_far,
            mcp,
        ) == parsed(
            rest,
            OptionsView {
                peer: so_far.peer,
                token: so_far.token,
                bench_len: n,
                state_path: so_far.state_path,
                serve: so_far.serve,
                mcp_addr: so_far.mcp_addr,
                auto_reply: so_far.auto_reply,
            },
            mcp,
        ),
        text::u32_of_text(value) is None ==> parsed(
            seq!["--bench-bytes"@, value] + rest,
            so_far,
            mcp,
        ) == Err::<OptionsView, ArgErrorView>(ArgErrorView::NotU32),
        parsed(seq!["--bench-bytes"@], so_far, mcp) == Err::<OptionsView, ArgErrorView>(
            ArgErrorView::MissingValue(Flag::BenchBytes),
        ),
{
    lemma_option_names();
    lemma_words("--bench-bytes"@, value, rest);
}

/// With a tool server, `--mcp` takes the next word as its address, or the default one where it is
/// the last word, and `--auto-reply` switches replies on; neither changes anything else. Without
/// a tool server both are unknown.
pub proof fn law_tool_server_options(
    so_far: OptionsView,
    value: Seq<char>,
    rest: Seq<Seq<char>>,
)
    ensures
        parsed(seq!["--mcp"@, value] + rest, so_far, true) == parsed(
            rest,
            OptionsView {
                peer: so_far.peer,
                token: so_far.token,
                bench_len: so_far.bench_len,
                state_path: so_far.state_path,
                serve: so_far.serve,
                mcp_addr: Some(value),
                auto_reply: so_far.auto_reply,
            },
            true,
        ),
        parsed(seq!["--mcp"@], so_far, true) == Ok::<OptionsView, ArgErrorView>(
            OptionsView { mcp_addr: Some("127.0.0.1:8780"@), ..so_far },
        ),
        parsed(seq!["--auto-reply"@] + rest, so_far, true) == parsed(
            rest,
            OptionsView {
                peer: so_far.peer,
                token: so_far.token,
                bench_len: so_far.bench_len,
                state_path: so_far.state_path,
                serve: so_far.serve,
                mcp_addr: so_far.mcp_addr,
                auto_reply: true,
            },
            true,
        ),
        parsed(seq!["--mcp"@] + rest, so_far, false) == Err::<OptionsView, ArgErrorView>(
            ArgErrorView::Unknown("--mcp"@),
        ),
        parsed(seq!["--auto-reply"@] + rest, so_far, false) == Err::<OptionsView, ArgErrorView>(
            ArgErrorView::Unknown("--auto-reply"@),
        ),
{
    lemma_option_names();
    lemma_words("--mcp"@, value, rest);
    lemma_words("--auto-reply"@, value, rest);
}

/// No words change nothing. A word that names no option is refused, by that word, whatever follows.
pub proof fn law_other_words(
    so_far: OptionsView,
    word: Seq<char>,
    rest: Seq<Seq<char>>,
    mcp: bool,
)
    ensures
        parsed(Seq::empty(), so_far, mcp) == Ok::<OptionsView, ArgErrorView>(so_far),
        word != "--serve"@ && word != "--token"@ && word != "--connect-to"@ && word != "--state"@
            && word != "--bench-bytes"@ && word != "--mcp"@ && word != "--auto-reply"@ ==> parsed(
            seq![word] + rest,
            so_far,
            mcp,
        ) == Err::<OptionsView, ArgErrorView>(ArgErrorView::Unknown(word)),
{
    lemma_words(word, Seq::empty(), rest);
}

/// What is done where nothing is asked: the relay on this machine is dialed, nothing is served, and
/// the benchmark asks for a quarter of a mebibyte.
pub proof fn law_defaults()
    ensures
        default_options().peer == "127.0.0.1:8766"@,
        default_options().token is None,
        default_options().bench_len == 256 * 1024,
        default_options().state_path == "/tmp/ql-link-lab-peer.state"@,
        !default_options().serve,
        default_options().mcp_addr is None,
        !default_options().auto_reply,
{
}

/// The words of a command line are what its strings hold, each in its place.
pub proof fn law_words(args: Seq<String>, i: int)
    ensures
        words(args).len() == args.len(),
        0 <= i < args.len() ==> words(args)[i] == args[i]@,
{
}

/// Options and errors are seen as the texts and values that they hold.
pub proof fn law_views(options: Options, name: String, flag: Flag)
    ensures
        options@.peer == options.peer@,
        options.token is Some ==> options@.token == Some(options.token->0@),
        options.token is None ==> options@.token is None,
        options@.bench_len == options.bench_len,
        options@.state_path == options.state_path@,
        options@.serve == options.serve,
        options.mcp_addr is Some ==> options@.mcp_addr == Some(options.mcp_addr->0@),
        options.mcp_addr is None ==> options@.mcp_addr is None,
        options@.auto_reply == options.auto_reply,
        ArgError::Unknown(name)@ == ArgErrorView::Unknown(name@),
        ArgError::MissingValue(flag)@ == ArgErrorView::MissingValue(flag),
        ArgError::NotU32@ == ArgErrorView::NotU32,
{
}

} // verus!
