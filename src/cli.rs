use vstd::prelude::*;
use std::path::PathBuf;
use crate::text::{chars_of, is_whitespace, push_char, whitespace};

verus! {

/// `std::path::PathBuf`, carried through as it is: nothing here reads inside it.
#[verifier::external_type_specification]
#[verifier::external_body]
pub struct ExPathBuf(PathBuf);

/// The options of the command-line program.
pub struct Args {
    /// Unset variables without a fallback are errors.
    pub no_unset: bool,
    /// Files of `key=value` lines to read named variables from.
    pub var_files: Vec<PathBuf>,
    /// Whether to read named variables from the environment too.
    pub env_vars: Option<bool>,
    /// Named variables given one by one.
    pub named_vars: Vec<(String, String)>,
    /// Positional variables.
    pub positional_vars: Vec<String>,
    /// Where to read from instead of standard input.
    pub input_file: Option<PathBuf>,
    /// Where to write to instead of standard output.
    pub output_file: Option<PathBuf>,
}

impl Args {
    /// Whether named variables are read from the environment: when asked for, and when
    /// not said, exactly when no other variables were given.
    pub fn use_env_vars(&self) -> (r: bool)
        ensures
            r == (self.env_vars == Some(true) || (self.env_vars is None && self.var_files@.len()
                == 0 && self.named_vars@.len() == 0 && self.positional_vars@.len() == 0)),
    {
        let has_user_provided_vars = self.var_files.len() > 0 || self.named_vars.len() > 0
            || self.positional_vars.len() > 0;
        match self.env_vars {
            Some(flag) => flag,
            None => !has_user_provided_vars,
        }
    }
}

/// The index of the last `c` in `s`, or `-1` when there is none.
pub open spec fn last_index_of(s: Seq<char>, c: char) -> int
    decreases s.len(),
{
    if s.len() == 0 {
        -1
    } else if s.last() == c {
        s.len() - 1
    } else {
        last_index_of(s.drop_last(), c)
    }
}

proof fn lemma_last_index_of(s: Seq<char>, c: char)
    ensures
        -1 <= last_index_of(s, c) < s.len(),
        0 <= last_index_of(s, c) ==> s[last_index_of(s, c)] == c,
        forall|j: int| last_index_of(s, c) < j < s.len() ==> s[j] != c,
    decreases s.len(),
{
    if s.len() > 0 && s.last() != c {
        lemma_last_index_of(s.drop_last(), c);
        assert forall|j: int| last_index_of(s, c) < j < s.len() implies s[j] != c by {
            if j < s.len() - 1 {
                assert(s.drop_last()[j] == s[j]);
            }
        }
    }
}

fn string_of(chars: &Vec<char>, from: usize, to: usize) -> (r: String)
    requires
        from <= to <= chars@.len(),
    ensures
        r@ == chars@.subrange(from as int, to as int),
{
    let mut r = String::new();
    let mut i = from;
    while i < to
        invariant
            from <= i <= to <= chars@.len(),
            r@ == chars@.subrange(from as int, i as int),
        decreases to - i,
    {
        push_char(&mut r, chars[i]);
        i = i + 1;
        assert(r@ =~= chars@.subrange(from as int, i as int));
    }
    r
}

/// Splits `key=value` at its last `=` into the key and the value.
pub fn read_named_arg(arg: &str) -> (r: Result<(String, String), String>)
    ensures
        ({
            let k = last_index_of(arg@, '=');
            if k < 0 {
                r is Err && r->Err_0@ == "'=' character missing in key value pair"@
            } else {
                r is Ok && r->Ok_0.0@ == arg@.take(k) && r->Ok_0.1@ == arg@.skip(k + 1)
            }
        }),
{
    let chars = chars_of(arg);
    proof {
        lemma_last_index_of(arg@, '=');
    }
    let mut i: usize = chars.len();
    while i > 0
        invariant
            chars@ == arg@,
            i <= chars@.len(),
            last_index_of(arg@, '=') < i,
            forall|j: int| i <= j < chars@.len() ==> chars@[j] != '=',
        decreases i,
    {
        proof {
            lemma_last_index_of(arg@, '=');
        }
        if chars[i - 1] == '=' {
            proof {
                assert(last_index_of(arg@, '=') == i - 1);
            }
            let key = string_of(&chars, 0, i - 1);
            let value = string_of(&chars, i, chars.len());
            proof {
                assert(arg@.take(i - 1) =~= chars@.subrange(0, i - 1));
                assert(arg@.skip(i as int) =~= chars@.subrange(i as int, chars@.len() as int));
            }
            return Ok((key, value));
        }
        i = i - 1;
    }
    Err(String::from_str("'=' character missing in key value pair"))
}

/// The index of the first line break in `s` from index `i` on, or the length of `s`.
pub open spec fn line_end(s: Seq<char>, i: int) -> int
    decreases s.len() - i,
{
    if 0 <= i < s.len() && s[i] != '\n' {
        line_end(s, i + 1)
    } else {
        i
    }
}

/// A line without the carriage return that may end it.
pub open spec fn without_cr(line: Seq<char>) -> Seq<char> {
    if line.len() > 0 && line.last() == '\r' {
        line.drop_last()
    } else {
        line
    }
}

/// Whether a line holds only whitespace.
pub open spec fn is_blank(line: Seq<char>) -> bool {
    forall|k: int| 0 <= k < line.len() ==> whitespace(#[trigger] line[k])
}

/// The `key=value` pairs of the lines of `s` from index `i` on, blank lines skipped, or
/// the error of the first line that has no `=`.
pub open spec fn var_lines(s: Seq<char>, i: int) -> Result<Seq<(Seq<char>, Seq<char>)>, Seq<char>>
    decreases s.len() - i,
{
    if i < 0 || i >= s.len() {
        Ok(Seq::empty())
    } else {
        let e = line_end(s, i);
        let line = without_cr(s.subrange(i, e));
        let rest = if i <= e < s.len() {
            var_lines(s, e + 1)
        } else {
            Ok(Seq::empty())
        };
        if is_blank(line) {
            rest
        } else {
            let k = last_index_of(line, '=');
            if k < 0 {
                Err("Failed to parse named arg: "@ + "'=' character missing in key value pair"@)
            } else {
                match rest {
                    Ok(pairs) => Ok(seq![(line.take(k), line.skip(k + 1))] + pairs),
                    Err(m) => Err(m),
                }
            }
        }
    }
}

proof fn lemma_line_end(s: Seq<char>, i: int)
    requires
        0 <= i <= s.len(),
    ensures
        i <= line_end(s, i) <= s.len(),
        line_end(s, i) < s.len() ==> s[line_end(s, i)] == '\n',
        forall|k: int| i <= k < line_end(s, i) ==> s[k] != '\n',
    decreases s.len() - i,
{
    if i < s.len() && s[i] != '\n' {
        lemma_line_end(s, i + 1);
    }
}

/// The pairs as key and value texts.
pub open spec fn pair_views(pairs: Seq<(String, String)>) -> Seq<(Seq<char>, Seq<char>)> {
    pairs.map_values(|p: (String, String)| (p.0@, p.1@))
}

/// Reads the named variables of a variable file: one `key=value` pair per line, split at
/// the last `=`; lines of whitespace are skipped; a line may end in `\r\n`.
pub fn vars_of_file(content: &str) -> (r: Result<Vec<(String, String)>, String>)
    ensures
        match var_lines(content@, 0) {
            Ok(pairs) => r is Ok && pair_views(r->Ok_0@) == pairs,
            Err(m) => r is Err && r->Err_0@ == m,
        },
{
    let chars = chars_of(content);
    let ghost s = content@;
    let mut pairs: Vec<(String, String)> = Vec::new();
    let mut i: usize = 0;
    assert(pair_views(pairs@) =~= Seq::<(Seq<char>, Seq<char>)>::empty());
    assert(Seq::<(Seq<char>, Seq<char>)>::empty() + Seq::<(Seq<char>, Seq<char>)>::empty() =~= Seq::<(Seq<char>, Seq<char>)>::empty());
    while i < chars.len()
        invariant
            chars@ == s,
            s == content@,
            0 <= i <= s.len(),
            match var_lines(s, i as int) {
                Ok(rest) => var_lines(s, 0) == Ok::<Seq<(Seq<char>, Seq<char>)>, Seq<char>>(
                    pair_views(pairs@) + rest,
                ),
                Err(m) => var_lines(s, 0) == Err::<Seq<(Seq<char>, Seq<char>)>, Seq<char>>(m),
            },
        decreases s.len() - i,
    {
        proof {
            lemma_line_end(s, i as int);
        }
        let mut e = i;
        while e < chars.len() && chars[e] != '\n'
            invariant
                chars@ == s,
                i <= e <= s.len(),
                line_end(s, i as int) == line_end(s, e as int),
            decreases s.len() - e,
        {
            e = e + 1;
        }
        let mut line = string_of(&chars, i, e);
        let mut end = e;
        if e > i && chars[e - 1] == '\r' {
            end = e - 1;
            line = string_of(&chars, i, end);
        }
        let ghost l = without_cr(s.subrange(i as int, e as int));
        proof {
            assert(line@ =~= l);
        }
        let mut blank = true;
        let mut k: usize = i;
        while k < end
            invariant
                chars@ == s,
                i <= k <= end <= s.len(),
                end - i == l.len(),
                forall|m: int| 0 <= m < l.len() ==> #[trigger] l[m] == s[i + m],
                blank == (forall|m: int| 0 <= m < k - i ==> whitespace(#[trigger] l[m])),
            decreases end - k,
        {
            let w = is_whitespace(chars[k]);
            proof {
                assert(l[k - i] == s[k as int]);
            }
            blank = blank && w;
            k = k + 1;
        }
        let ghost rest = var_lines(s, e + 1);
        proof {
            assert(var_lines(s, i as int) == if is_blank(l) {
                rest
            } else if last_index_of(l, '=') < 0 {
                Err("Failed to parse named arg: "@ + "'=' character missing in key value pair"@)
            } else {
                match rest {
                    Ok(p) => Ok(seq![(l.take(last_index_of(l, '=')), l.skip(last_index_of(l, '=') + 1))] + p),
                    Err(m) => Err(m),
                }
            });
        }
        if !blank {
            match read_named_arg(line.as_str()) {
                Ok(pair) => {
                    let ghost before = pair_views(pairs@);
                    pairs.push(pair);
                    proof {
                        assert(pair_views(pairs@) =~= before.push((pair.0@, pair.1@)));
                        match rest {
                            Ok(p) => {
                                assert(before + (seq![(pair.0@, pair.1@)] + p) =~= before.push(
                                    (pair.0@, pair.1@),
                                ) + p);
                            },
                            Err(m) => {},
                        }
                    }
                },
                Err(message) => {
                    let mut m = String::from_str("Failed to parse named arg: ");
                    m.append(message.as_str());
                    return Err(m);
                },
            }
        }
        i = if e < chars.len() {
            e + 1
        } else {
            e
        };
        proof {
            if e >= s.len() {
                assert(var_lines(s, i as int) == Ok::<Seq<(Seq<char>, Seq<char>)>, Seq<char>>(
                    Seq::empty(),
                ));
                assert(rest == Ok::<Seq<(Seq<char>, Seq<char>)>, Seq<char>>(Seq::empty()));
            }
        }
    }
    proof {
        assert(pair_views(pairs@) + Seq::<(Seq<char>, Seq<char>)>::empty() =~= pair_views(pairs@));
    }
    Ok(pairs)
}

} // verus!
