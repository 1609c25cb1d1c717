use vstd::prelude::*;

use vstd::string::StrSliceExecFns;

verus! {

/// The configuration the process consumes, read from environment-style
/// key=value text: the store's connection path, the bind address of the
/// foreground service, the expected request origin, the websocket host
/// handed to clients, and the session-cookie key.
#[derive(PartialEq, Eq, Debug)]
pub struct Env {
    pub database_url: String,
    pub host: String,
    pub origin: String,
    pub ws_host: String,
    pub session_key: String,
}

/// The pieces of `s` between occurrences of `sep`, in order, empty
/// pieces kept; splitting the empty text yields one empty piece.
pub open spec fn split_char(s: Seq<char>, sep: char) -> Seq<Seq<char>>
    decreases s.len(),
{
    if s.len() == 0 {
        seq![Seq::<char>::empty()]
    } else {
        let rest = split_char(s.drop_last(), sep);
        if s.last() == sep {
            rest.push(Seq::empty())
        } else {
            rest.update(rest.len() - 1, rest.last().push(s.last()))
        }
    }
}

pub proof fn lemma_split_char_nonempty(s: Seq<char>, sep: char)
    ensures
        split_char(s, sep).len() >= 1,
    decreases s.len(),
{
    if s.len() > 0 {
        lemma_split_char_nonempty(s.drop_last(), sep);
    }
}

/// A line with a trailing carriage return loses it.
pub open spec fn strip_cr(line: Seq<char>) -> Seq<char> {
    if line.len() > 0 && line.last() == '\r' {
        line.drop_last()
    } else {
        line
    }
}

/// Every line with its trailing carriage return stripped.
pub open spec fn strip_all(lines: Seq<Seq<char>>) -> Seq<Seq<char>>
    decreases lines.len(),
{
    if lines.len() == 0 {
        Seq::empty()
    } else {
        strip_all(lines.drop_last()).push(strip_cr(lines.last()))
    }
}

/// The lines of `s`: the pieces between newlines, a final empty piece
/// (from a trailing newline, or empty text) dropped, and each line's
/// trailing carriage return stripped.
pub open spec fn spec_lines(s: Seq<char>) -> Seq<Seq<char>> {
    let raw = split_char(s, '\n');
    let kept = if raw.last().len() == 0 {
        raw.drop_last()
    } else {
        raw
    };
    strip_all(kept)
}

/// All '='-separated pieces of the given lines, line by line.
pub open spec fn tokens_of_lines(lines: Seq<Seq<char>>) -> Seq<Seq<char>>
    decreases lines.len(),
{
    if lines.len() == 0 {
        Seq::empty()
    } else {
        tokens_of_lines(lines.drop_last()) + split_char(lines.last(), '=')
    }
}

/// The token stream of environment-style text: each line is split on
/// '=', and the pieces of all lines run together in order.
pub open spec fn env_tokens(s: Seq<char>) -> Seq<Seq<char>> {
    tokens_of_lines(spec_lines(s))
}

/// Adjacent tokens taken two by two as (key, value); a trailing odd
/// token pairs with nothing and is dropped.
pub open spec fn env_pairs(toks: Seq<Seq<char>>) -> Seq<(Seq<char>, Seq<char>)> {
    Seq::new((toks.len() / 2) as nat, |i: int| (toks[2 * i], toks[2 * i + 1]))
}

/// The value of `key` among the pairs; the last pair for a key wins.
pub open spec fn env_lookup(pairs: Seq<(Seq<char>, Seq<char>)>, key: Seq<char>) -> Option<
    Seq<char>,
>
    decreases pairs.len(),
{
    if pairs.len() == 0 {
        None
    } else if pairs.last().0 == key {
        Some(pairs.last().1)
    } else {
        env_lookup(pairs.drop_last(), key)
    }
}

/// The value `key` takes in the environment-style text `s`, if any.
pub open spec fn env_value(s: Seq<char>, key: Seq<char>) -> Option<Seq<char>> {
    env_lookup(env_pairs(env_tokens(s)), key)
}

/// The views of a token list.
pub open spec fn views_of(tokens: Seq<String>) -> Seq<Seq<char>> {
    tokens.map_values(|t: String| t@)
}

/// Splits `s` on `sep`, keeping empty pieces.
fn split_on(s: &str, sep: char) -> (r: Vec<String>)
    ensures
        views_of(r@) == split_char(s@, sep),
{
    let n = s.unicode_len();
    let mut out: Vec<String> = Vec::new();
    let mut start: usize = 0;
    let mut i: usize = 0;
    proof {
        assert(s@.take(0) =~= Seq::<char>::empty());
        assert(s@.subrange(0, 0) =~= Seq::<char>::empty());
        assert(views_of(out@).push(s@.subrange(0, 0)) =~= split_char(s@.take(0), sep));
    }
    while i < n
        invariant
            start <= i <= n,
            n == s@.len(),
            split_char(s@.take(i as int), sep) == views_of(out@).push(
                s@.subrange(start as int, i as int),
            ),
        decreases n - i,
    {
        let c = s.get_char(i);
        proof {
            assert(s@.take(i + 1).drop_last() =~= s@.take(i as int));
            assert(s@.take(i + 1).last() == s@[i as int]);
        }
        if c == sep {
            let ghost pre = out@;
            out.push(s.substring_char(start, i).to_owned());
            proof {
                assert(views_of(out@) =~= views_of(pre).push(s@.subrange(start as int, i as int)));
                assert(s@.subrange(i + 1, i + 1) =~= Seq::<char>::empty());
                assert(split_char(s@.take(i + 1), sep) == split_char(s@.take(i as int), sep).push(
                    Seq::empty(),
                ));
            }
            start = i + 1;
        } else {
            proof {
                let prev = split_char(s@.take(i as int), sep);
                assert(prev.len() == views_of(out@).len() + 1);
                assert(prev.last() == s@.subrange(start as int, i as int));
                assert(s@.subrange(start as int, i + 1) =~= s@.subrange(
                    start as int,
                    i as int,
                ).push(s@[i as int]));
                assert(split_char(s@.take(i + 1), sep) == prev.update(
                    prev.len() - 1,
                    prev.last().push(s@[i as int]),
                ));
                assert(split_char(s@.take(i + 1), sep) =~= views_of(out@).push(
                    s@.subrange(start as int, i + 1),
                ));
            }
        }
        i += 1;
    }
    let ghost pre = out@;
    out.push(s.substring_char(start, n).to_owned());
    proof {
        assert(s@.take(n as int) =~= s@);
        assert(views_of(out@) =~= views_of(pre).push(s@.subrange(start as int, n as int)));
    }
    out
}

/// Drops a trailing carriage return from one line.
fn strip_cr_line(line: String) -> (r: String)
    ensures
        r@ == strip_cr(line@),
{
    let n = line.as_str().unicode_len();
    if n > 0 {
        let c = line.as_str().get_char(n - 1);
        if c == '\r' {
            proof {
                assert(line@.drop_last() =~= line@.subrange(0, line@.len() - 1));
            }
            return line.as_str().substring_char(0, n - 1).to_owned();
        }
    }
    line
}

/// The lines of `s`, as `spec_lines` describes them.
fn split_lines(s: &str) -> (r: Vec<String>)
    ensures
        views_of(r@) == spec_lines(s@),
{
    let mut kept = split_on(s, '\n');
    proof {
        lemma_split_char_nonempty(s@, '\n');
        assert(views_of(kept@).len() == kept@.len());
        assert(views_of(kept@).last() == kept@.last()@);
    }
    let last = kept.len() - 1;
    let ghost raw_full = kept@;
    if kept[last].as_str().unicode_len() == 0 {
        kept.pop();
        proof {
            assert(views_of(kept@) =~= views_of(raw_full).drop_last());
        }
    }
    let ghost kept_spec = if split_char(s@, '\n').last().len() == 0 {
        split_char(s@, '\n').drop_last()
    } else {
        split_char(s@, '\n')
    };
    proof {
        assert(views_of(kept@) == kept_spec);
        assert(strip_all(kept_spec.take(0)) =~= Seq::<Seq<char>>::empty());
    }
    let n = kept.len();
    let mut out: Vec<String> = Vec::new();
    let mut i: usize = 0;
    while i < n
        invariant
            i <= n,
            n == kept@.len(),
            views_of(kept@) == kept_spec,
            views_of(out@) == strip_all(kept_spec.take(i as int)),
        decreases n - i,
    {
        let ghost pre = out@;
        let stripped = strip_cr_line(kept[i].clone());
        let ghost stripped_view = stripped@;
        out.push(stripped);
        proof {
            assert(kept_spec.take(i + 1).drop_last() =~= kept_spec.take(i as int));
            assert(kept_spec.take(i + 1).last() == kept_spec[i as int]);
            assert(views_of(kept@)[i as int] == kept@[i as int]@);
            assert(stripped_view == strip_cr(kept_spec[i as int]));
            assert(views_of(out@) =~= views_of(pre).push(stripped_view));
            assert(strip_all(kept_spec.take(i + 1)) == strip_all(kept_spec.take(i as int)).push(
                strip_cr(kept_spec[i as int]),
            ));
        }
        i += 1;
    }
    proof {
        assert(kept_spec.take(n as int) =~= kept_spec);
    }
    out
}

/// The '='-separated token stream of `s`, line by line.
fn tokenize(s: &str) -> (r: Vec<String>)
    ensures
        views_of(r@) == env_tokens(s@),
{
    let lines = split_lines(s);
    let n = lines.len();
    let mut out: Vec<String> = Vec::new();
    let mut i: usize = 0;
    proof {
        assert(views_of(lines@).take(0) =~= Seq::<Seq<char>>::empty());
        assert(views_of(out@) =~= tokens_of_lines(views_of(lines@).take(0)));
    }
    while i < n
        invariant
            i <= n,
            n == lines@.len(),
            views_of(lines@) == spec_lines(s@),
            views_of(out@) == tokens_of_lines(views_of(lines@).take(i as int)),
        decreases n - i,
    {
        let ts = split_on(lines[i].as_str(), '=');
        proof {
            assert(views_of(lines@)[i as int] == lines@[i as int]@);
        }
        let m = ts.len();
        let mut j: usize = 0;
        proof {
            assert(views_of(ts@).take(0) =~= Seq::<Seq<char>>::empty());
            assert(views_of(out@) + views_of(ts@).take(0) =~= views_of(out@));
        }
        let ghost base = views_of(out@);
        while j < m
            invariant
                j <= m,
                m == ts@.len(),
                views_of(ts@) == split_char(lines@[i as int]@, '='),
                base == tokens_of_lines(views_of(lines@).take(i as int)),
                views_of(out@) == base + views_of(ts@).take(j as int),
            decreases m - j,
        {
            let ghost pre = out@;
            out.push(ts[j].clone());
            proof {
                assert(views_of(out@) =~= views_of(pre).push(views_of(ts@)[j as int]));
                assert(views_of(ts@).take(j + 1) =~= views_of(ts@).take(j as int).push(
                    views_of(ts@)[j as int],
                ));
                assert(base + views_of(ts@).take(j + 1) =~= (base + views_of(ts@).take(
                    j as int,
                )).push(views_of(ts@)[j as int]));
            }
            j += 1;
        }
        proof {
            assert(views_of(ts@).take(m as int) =~= views_of(ts@));
            assert(views_of(lines@).take(i + 1).drop_last() =~= views_of(lines@).take(i as int));
            assert(views_of(lines@).take(i + 1).last() == views_of(lines@)[i as int]);
            assert(tokens_of_lines(views_of(lines@).take(i + 1)) == tokens_of_lines(
                views_of(lines@).take(i as int),
            ) + split_char(views_of(lines@)[i as int], '='));
        }
        i += 1;
    }
    proof {
        assert(views_of(lines@).take(n as int) =~= views_of(lines@));
    }
    out
}

/// The value of `key` in the token stream, the last pair winning.
fn lookup_token(tokens: &Vec<String>, key: &str) -> (r: Option<String>)
    ensures
        match r {
            Some(v) => env_lookup(env_pairs(views_of(tokens@)), key@) == Some(v@),
            None => env_lookup(env_pairs(views_of(tokens@)), key@) is None,
        },
{
    let k: String = key.to_owned();
    let total = tokens.len();
    let npairs = total / 2;
    let ghost pairs = env_pairs(views_of(tokens@));
    proof {
        assert(pairs.len() == npairs as int);
        assert(pairs.take(npairs as int) =~= pairs);
    }
    let mut i: usize = npairs;
    while i > 0
        invariant
            i <= npairs,
            total == tokens@.len(),
            npairs == total / 2,
            k@ == key@,
            pairs == env_pairs(views_of(tokens@)),
            env_lookup(pairs, key@) == env_lookup(pairs.take(i as int), key@),
        decreases i,
    {
        i -= 1;
        proof {
            assert(pairs.take(i + 1).drop_last() =~= pairs.take(i as int));
            assert(pairs.take(i + 1).last() == pairs[i as int]);
            assert(pairs[i as int].0 == views_of(tokens@)[2 * i]);
            assert(pairs[i as int].1 == views_of(tokens@)[2 * i + 1]);
            assert(views_of(tokens@)[2 * i] == tokens@[2 * i]@);
            assert(views_of(tokens@)[2 * i + 1] == tokens@[2 * i + 1]@);
        }
        if tokens[2 * i] == k {
            return Some(tokens[2 * i + 1].clone());
        }
    }
    proof {
        assert(pairs.take(0) =~= Seq::<(Seq<char>, Seq<char>)>::empty());
    }
    None
}

impl Env {
    /// Parses environment-style text: each line is split on '=', the
    /// pieces of all lines are paired up in order, a later pair for the
    /// same key overrides an earlier one, and all five settings must be
    /// present.
    pub fn parse(file: &str) -> (r: Option<Env>)
        ensures
            (r is Some <==> env_value(file@, "DATABASE_URL"@) is Some && env_value(
                file@,
                "HOST"@,
            ) is Some && env_value(file@, "ORIGIN"@) is Some && env_value(
                file@,
                "WS_HOST"@,
            ) is Some && env_value(file@, "SESSION_KEY"@) is Some),
            r is Some ==> ({
                let e = r->0;
                &&& Some(e.database_url@) == env_value(file@, "DATABASE_URL"@)
                &&& Some(e.host@) == env_value(file@, "HOST"@)
                &&& Some(e.origin@) == env_value(file@, "ORIGIN"@)
                &&& Some(e.ws_host@) == env_value(file@, "WS_HOST"@)
                &&& Some(e.session_key@) == env_value(file@, "SESSION_KEY"@)
            }),
    {
        let tokens = tokenize(file);
        let database_url = match lookup_token(&tokens, "DATABASE_URL") {
            Some(v) => v,
            None => {
                return None;
            },
        };
        let host = match lookup_token(&tokens, "HOST") {
            Some(v) => v,
            None => {
                return None;
            },
        };
        let origin = match lookup_token(&tokens, "ORIGIN") {
            Some(v) => v,
            None => {
                return None;
            },
        };
        let ws_host = match lookup_token(&tokens, "WS_HOST") {
            Some(v) => v,
            None => {
                return None;
            },
        };
        let session_key = match lookup_token(&tokens, "SESSION_KEY") {
            Some(v) => v,
            None => {
                return None;
            },
        };
        Some(Env { database_url, host, origin, ws_host, session_key })
    }
}

} // verus!
