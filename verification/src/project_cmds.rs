//! A project's named run commands (`knit project command`): parsing their
//! environment, setting and removing them, and merging the commands a stack
//! repo's committed project config declares.
use vstd::prelude::*;

use crate::str_map::{map_get, map_of, map_remove, map_set, well_keyed};
use crate::text::{
    append_str, chars_of, first_index_of, join_seq, join_strings, lemma_first_index_of, slugify, slugify_seq,
    split_once_char, string_from_chars, strings_view, trim_chars, trim_seq,
};

verus! {

/// A named command of a project.
#[derive(Debug, Clone)]
pub struct ProjectRunCommand {
    /// The repos it runs in (chosen at run time when empty).
    pub repos: Vec<String>,
    pub cwd: Option<String>,
    pub command: Vec<String>,
    /// Environment variables, sorted by name.
    pub env: Vec<(String, String)>,
}

/// The map of string values, by their characters.
pub open spec fn chars_map(m: Map<Seq<char>, String>) -> Map<Seq<char>, Seq<char>> {
    Map::new(|k: Seq<char>| m.dom().contains(k), |k: Seq<char>| m[k]@)
}

/// The environment `KEY=VALUE` entries give, or the error of the first bad
/// one: every entry needs an `=` (the first one splits it) and a non-blank
/// name; a later entry for a name replaces an earlier one.
pub open spec fn env_spec(values: Seq<Seq<char>>) -> Result<Map<Seq<char>, Seq<char>>, Seq<char>>
    decreases values.len(),
{
    if values.len() == 0 {
        Ok(Map::empty())
    } else {
        match env_spec(values.drop_last()) {
            Err(e) => Err(e),
            Ok(m) => {
                let s = values.last();
                if !s.contains('=') {
                    Err("Environment entries must use KEY=VALUE syntax: "@ + s)
                } else {
                    let i = first_index_of(s, '=');
                    if trim_seq(s.take(i)).len() == 0 {
                        Err("Environment variable names cannot be empty."@)
                    } else {
                        Ok(m.insert(s.take(i), s.skip(i + 1)))
                    }
                }
            },
        }
    }
}

proof fn lemma_env_error_stays(values: Seq<Seq<char>>, i: int)
    requires
        0 <= i <= values.len(),
        env_spec(values.take(i)) is Err,
    ensures
        env_spec(values) == env_spec(values.take(i)),
    decreases values.len() - i,
{
    if i < values.len() {
        assert(values.take(i + 1).drop_last() =~= values.take(i));
        lemma_env_error_stays(values, i + 1);
    } else {
        assert(values.take(i) =~= values);
    }
}

/// Parses `KEY=VALUE` environment entries into a map sorted by name.
pub fn parse_env(values: &Vec<String>) -> (r: Result<Vec<(String, String)>, String>)
    ensures
        match r {
            Ok(env) => well_keyed(env@) && env_spec(strings_view(values@)) == Ok::<
                Map<Seq<char>, Seq<char>>,
                Seq<char>,
            >(chars_map(map_of(env@))),
            Err(e) => env_spec(strings_view(values@)) == Err::<Map<Seq<char>, Seq<char>>, Seq<char>>(e@),
        },
{
    let mut env: Vec<(String, String)> = Vec::new();
    let mut i: usize = 0;
    proof {
        assert(chars_map(map_of(env@)) =~= Map::<Seq<char>, Seq<char>>::empty());
        assert(strings_view(values@).take(0) =~= Seq::<Seq<char>>::empty());
    }
    while i < values.len()
        invariant
            i <= values@.len(),
            well_keyed(env@),
            env_spec(strings_view(values@).take(i as int)) == Ok::<Map<Seq<char>, Seq<char>>, Seq<char>>(
                chars_map(map_of(env@)),
            ),
        decreases values.len() - i,
    {
        let ghost vs = strings_view(values@);
        proof {
            assert(vs.take(i + 1).drop_last() =~= vs.take(i as int));
            assert(vs.take(i + 1).last() == values@[i as int]@);
        }
        let v = chars_of(values[i].as_str());
        match split_once_char(&v, '=') {
            None => {
                let mut m = chars_of("Environment entries must use KEY=VALUE syntax: ");
                append_str(&mut m, values[i].as_str());
                proof {
                    assert(!values@[i as int]@.contains('='));
                    lemma_env_error_stays(vs, i + 1);
                }
                return Err(string_from_chars(&m));
            },
            Some((key, value)) => {
                proof {
                    let s = values@[i as int]@;
                    let w = choose|w: int|
                        0 <= w < v@.len() && v@[w] == '=' && (forall|j: int| 0 <= j < w ==> v@[j] != '=')
                            && key@ == v@.take(w) && value@ == v@.skip(w + 1);
                    lemma_first_index_of(s, '=', w);
                    assert(s.contains('=')) by {
                        assert(s[w] == '=');
                    }
                }
                let t = trim_chars(&key);
                if t.len() == 0 {
                    proof {
                        lemma_env_error_stays(vs, i + 1);
                    }
                    return Err(string_from_chars(&chars_of("Environment variable names cannot be empty.")));
                }
                let ghost before = map_of(env@);
                let k = string_from_chars(&key);
                let val = string_from_chars(&value);
                let ghost kv = k@;
                let ghost vv = val@;
                map_set(&mut env, k, val);
                proof {
                    assert(chars_map(map_of(env@)) =~= chars_map(before).insert(kv, vv));
                }
            },
        }
        i += 1;
    }
    proof {
        assert(strings_view(values@).take(values@.len() as int) =~= strings_view(values@));
    }
    Ok(env)
}

pub open spec fn empty_command_text() -> Seq<char> {
    "Pass a command after the name, for example `knit project command set dev -- docker compose up`."@
}

/// Sets the project command `name` (by its slug): runs `command` in `repos`
/// (each by its slug) with the parsed `env`. Returns the command's name.
pub fn set_run_command(
    commands: &mut Vec<(String, ProjectRunCommand)>,
    name: &str,
    repos: &Vec<String>,
    cwd: Option<String>,
    env: &Vec<String>,
    command: Vec<String>,
) -> (r: Result<String, String>)
    requires
        well_keyed(old(commands)@),
    ensures
        well_keyed(final(commands)@),
        command@.len() == 0 ==> (r matches Err(e) && e@ == empty_command_text() && final(commands)@ == old(
            commands,
        )@),
        command@.len() > 0 && env_spec(strings_view(env@)) is Err ==> (r matches Err(e) && e@ == env_spec(
            strings_view(env@),
        )->Err_0 && final(commands)@ == old(commands)@),
        command@.len() > 0 && env_spec(strings_view(env@)) is Ok ==> (r matches Ok(n) && n@ == slugify_seq(name@)
            && map_of(final(commands)@).dom() == map_of(old(commands)@).dom().insert(n@) && ({
            let c = map_of(final(commands)@)[n@];
            &&& strings_view(c.repos@) == strings_view(repos@).map_values(|r: Seq<char>| slugify_seq(r))
            &&& c.cwd == cwd
            &&& c.command == command
            &&& well_keyed(c.env@)
            &&& env_spec(strings_view(env@)) == Ok::<Map<Seq<char>, Seq<char>>, Seq<char>>(chars_map(map_of(c.env@)))
        }) && forall|k: Seq<char>|
            k != n@ && map_of(old(commands)@).dom().contains(k) ==> map_of(final(commands)@)[k] == map_of(
                old(commands)@,
            )[k]),
{
    if command.len() == 0 {
        return Err(string_from_chars(&chars_of(empty_command_text_exec())));
    }
    let parsed = match parse_env(env) {
        Ok(p) => p,
        Err(e) => return Err(e),
    };
    let n = slugify(name);
    let mut slugs: Vec<String> = Vec::new();
    let mut i: usize = 0;
    while i < repos.len()
        invariant
            i <= repos@.len(),
            strings_view(slugs@) == strings_view(repos@).take(i as int).map_values(|r: Seq<char>| slugify_seq(r)),
        decreases repos.len() - i,
    {
        let ghost s0 = slugs@;
        slugs.push(slugify(repos[i].as_str()));
        proof {
            assert(strings_view(slugs@) =~= strings_view(s0).push(slugify_seq(repos@[i as int]@)));
            assert(strings_view(repos@).take(i + 1) =~= strings_view(repos@).take(i as int).push(repos@[i as int]@));
        }
        i += 1;
    }
    proof {
        assert(strings_view(repos@).take(repos@.len() as int) =~= strings_view(repos@));
    }
    let entry = ProjectRunCommand { repos: slugs, cwd, command, env: parsed };
    let ghost entry_v = entry;
    let ghost before = map_of(commands@);
    let key = string_from_chars(&chars_of(n.as_str()));
    map_set(commands, key, entry);
    proof {
        assert(map_of(commands@) == before.insert(n@, entry_v));
        assert(map_of(commands@).dom() =~= before.dom().insert(n@));
    }
    Ok(n)
}

fn empty_command_text_exec() -> (s: &'static str)
    ensures
        s@ == empty_command_text(),
{
    "Pass a command after the name, for example `knit project command set dev -- docker compose up`."
}

/// Removes the project command `name` (by its slug); refused when there is
/// none.
pub fn remove_run_command(commands: &mut Vec<(String, ProjectRunCommand)>, name: &str) -> (r: Result<String, String>)
    requires
        well_keyed(old(commands)@),
    ensures
        well_keyed(final(commands)@),
        map_of(final(commands)@) == map_of(old(commands)@).remove(slugify_seq(name@)),
        map_of(old(commands)@).dom().contains(slugify_seq(name@)) ==> (r matches Ok(n) && n@ == slugify_seq(name@)),
        !map_of(old(commands)@).dom().contains(slugify_seq(name@)) ==> (r matches Err(e) && e@ == "Project command `"@
            + slugify_seq(name@) + "` does not exist."@),
{
    let n = slugify(name);
    if map_remove(commands, n.as_str()) {
        Ok(n)
    } else {
        let mut v = chars_of("Project command `");
        append_str(&mut v, n.as_str());
        append_str(&mut v, "` does not exist.");
        Err(string_from_chars(&v))
    }
}

/// How a command's repos are listed: joined by commas, or chosen at run
/// time when it names none.
pub fn command_repo_label(repos: &Vec<String>) -> (out: String)
    ensures
        out@ == (if repos@.len() == 0 {
            "(select at run time)"@
        } else {
            join_seq(strings_view(repos@), ","@)
        }),
{
    if repos.len() == 0 {
        string_from_chars(&chars_of("(select at run time)"))
    } else {
        join_strings(repos, ",")
    }
}

/// Adds the commands a committed project config declares, keeping every
/// command the workspace already has under the same name.
pub fn merge_pulled_commands(local: &mut Vec<(String, ProjectRunCommand)>, incoming: Vec<(String, ProjectRunCommand)>)
    requires
        well_keyed(old(local)@),
        well_keyed(incoming@),
    ensures
        well_keyed(final(local)@),
        forall|k: Seq<char>| #[trigger]
            map_of(incoming@).dom().contains(k) && !map_of(old(local)@).dom().contains(k) ==> map_of(
                final(local)@,
            )[k] == map_of(incoming@)[k],
        map_of(final(local)@).dom() == map_of(old(local)@).dom() + incoming@.map_values(
            |p: (String, ProjectRunCommand)| p.0@,
        ).to_set(),
        forall|k: Seq<char>| #[trigger]
            map_of(old(local)@).dom().contains(k) ==> map_of(final(local)@)[k] == map_of(old(local)@)[k],
{
    let ghost orig = map_of(local@);
    let ghost inc = incoming@;
    let mut i: usize = 0;
    let n = incoming.len();
    let mut rest = incoming;
    let ghost keys = inc.map_values(|p: (String, ProjectRunCommand)| p.0@);
    while i < n
        invariant
            n == inc.len(),
            i <= n,
            rest@ == inc.skip(i as int),
            well_keyed(local@),
            keys == inc.map_values(|p: (String, ProjectRunCommand)| p.0@),
            map_of(local@).dom() == orig.dom() + keys.take(i as int).to_set(),
            forall|k: Seq<char>| #[trigger] orig.dom().contains(k) ==> map_of(local@)[k] == orig[k],
            well_keyed(inc),
            forall|j: int| 0 <= j < i && !orig.dom().contains(#[trigger] keys[j]) ==> map_of(local@)[keys[j]]
                == map_of(inc)[keys[j]],
        decreases n - i,
    {
        proof {
            assert(rest@[0] == inc[i as int]);
        }
        let (k, c) = rest.remove(0);
        let ghost kv = k@;
        proof {
            assert(kv == keys[i as int]);
            assert(keys.take(i + 1) =~= keys.take(i as int).push(kv));
        }
        let ghost before = map_of(local@);
        let present = match map_get(local, k.as_str()) {
            Some(_) => true,
            None => false,
        };
        proof {
            let a = keys.take(i + 1);
            let b = keys.take(i as int);
            assert forall|x: Seq<char>| #[trigger] a.to_set().contains(x) <==> (b.to_set().contains(x) || x == kv) by {
                if a.contains(x) {
                    let j = choose|j: int| 0 <= j < a.len() && #[trigger] a[j] == x;
                    if j < i {
                        assert(b[j] == x);
                    }
                }
                if b.contains(x) {
                    let j = choose|j: int| 0 <= j < b.len() && #[trigger] b[j] == x;
                    assert(a[j] == x);
                }
                if x == kv {
                    assert(a[i as int] == x);
                }
            }
        }
        proof {
            crate::str_map::lemma_map_of_at(inc, i as int);
        }
        if !present {
            map_set(local, k, c);
            proof {
                assert(map_of(local@).dom() =~= orig.dom() + keys.take(i + 1).to_set());
                assert forall|j: int| 0 <= j < i + 1 && !orig.dom().contains(#[trigger] keys[j]) implies map_of(
                    local@,
                )[keys[j]] == map_of(inc)[keys[j]] by {
                    if j < i {
                        assert(keys[j] != kv) by {
                            assert(keys.take(i as int)[j] == keys[j]);
                            assert(keys.take(i as int).to_set().contains(keys[j]));
                            assert(before.dom().contains(keys[j]));
                        }
                    }
                }
            }
        } else {
            proof {
                assert(map_of(local@).dom() =~= orig.dom() + keys.take(i + 1).to_set());
            }
        }
        i += 1;
    }
    proof {
        assert(keys.take(n as int) =~= keys);
        assert forall|k: Seq<char>| #[trigger]
            map_of(inc).dom().contains(k) && !orig.dom().contains(k) implies map_of(local@)[k] == map_of(inc)[k] by {
            let j = choose|j: int| 0 <= j < inc.len() && inc[j].0@ == k;
            assert(keys[j] == k);
        }
    }
}

/// A committed project config must declare the workspace's project.
pub fn check_pulled_project_id(workspace_id: &str, config_path: &str, declared_id: &str) -> (r: Result<(), String>)
    ensures
        r is Ok <==> workspace_id@ == declared_id@,
        r matches Err(e) ==> e@ == "Project id mismatch: workspace has `"@ + workspace_id@ + "` but `"@ + config_path@
            + "` declares `"@ + declared_id@ + "`."@,
{
    if crate::text::str_eq(workspace_id, declared_id) {
        return Ok(());
    }
    let mut v = chars_of("Project id mismatch: workspace has `");
    append_str(&mut v, workspace_id);
    append_str(&mut v, "` but `");
    append_str(&mut v, config_path);
    append_str(&mut v, "` declares `");
    append_str(&mut v, declared_id);
    append_str(&mut v, "`.");
    Err(string_from_chars(&v))
}

} // verus!
