//! What the session makes of the files it reads: the id a file names, the
//! lists of chats, memories and prompts, and the text of a prompt from the
//! command-line arguments.
use crate::ai::Ai;
use crate::completion::strings_view;
use crate::provider::strip_end_all;
use crate::text::{chars_of, join, join_chars, split, string_of, trim, trim_chars};
use vstd::prelude::*;

verus! {

broadcast use vstd::std_specs::vec::group_vec_axioms;

/// The id a file names: its text trimmed, or `d` when there is no file or
/// only blanks.
pub open spec fn named_id(content: Option<Seq<char>>, d: Seq<char>) -> Seq<char> {
    match content {
        Some(c) => if trim(c).len() > 0 { trim(c) } else { d },
        None => d,
    }
}

/// The id a file names (see `named_id`); `content` is the file's text,
/// none when it could not be read.
pub fn named_id_of(content: Option<&str>, d: &str) -> (r: String)
    ensures
        r@ == named_id(match content { Some(c) => Some(c@), None => None }, d@),
{
    match content {
        Some(c) => {
            let cs = chars_of(c);
            let t = trim_chars(&cs);
            if t.len() > 0 {
                string_of(&t)
            } else {
                d.to_owned()
            }
        },
        None => d.to_owned(),
    }
}

/// The names `names` appended to `acc` in order, each with `suffix` removed
/// from its end as often as it is there, leaving out names without the
/// suffix and names already present.
pub open spec fn appended(acc: Seq<Seq<char>>, names: Seq<Seq<char>>, suffix: Seq<char>) -> Seq<Seq<char>>
    decreases names.len(),
{
    if names.len() == 0 {
        acc
    } else {
        let a = appended(acc, names.drop_last(), suffix);
        let n = names.last();
        let ends = suffix.len() <= n.len() && n.skip(n.len() - suffix.len()) == suffix;
        let id = strip_end_all(n, suffix);
        if ends && !a.contains(id) {
            a.push(id)
        } else {
            a
        }
    }
}

/// The names appended to `acc` (see `appended`).
pub fn append_names(acc: &mut Vec<String>, names: &Vec<String>, suffix: &str)
    ensures
        strings_view(final(acc)@) == appended(strings_view(old(acc)@), strings_view(names@), suffix@),
{
    let ghost nv = strings_view(names@);
    let sfx = chars_of(suffix);
    let mut i: usize = 0;
    assert(nv.take(0) =~= Seq::<Seq<char>>::empty());
    while i < names.len()
        invariant
            nv == strings_view(names@),
            sfx@ == suffix@,
            i <= names@.len(),
            strings_view(acc@) == appended(strings_view(old(acc)@), nv.take(i as int), suffix@),
        decreases names@.len() - i,
    {
        assert(nv.take(i + 1).drop_last() =~= nv.take(i as int));
        assert(nv.take(i + 1).last() == names@[i as int]@);
        let n = chars_of(names[i].as_str());
        let ends = sfx.len() <= n.len() && crate::text::matches_at(&n, n.len() - sfx.len(), &sfx);
        proof {
            if sfx@.len() <= n@.len() {
                assert(n@.subrange(n@.len() - sfx@.len(), n@.len() as int) =~= n@.skip(n@.len() - sfx@.len()));
            }
        }
        if ends {
            let idv = crate::provider::strip_suffix_chars(&n, &sfx);
            let id = string_of(&idv);
            let ghost av = strings_view(acc@);
            let mut found = false;
            let mut j: usize = 0;
            while j < acc.len()
                invariant
                    av == strings_view(acc@),
                    j <= acc@.len(),
                    found == (exists|k: int| 0 <= k < j && av[k] == id@),
                decreases acc@.len() - j,
            {
                assert(av[j as int] == acc@[j as int]@);
                if crate::text::str_eq(acc[j].as_str(), id.as_str()) {
                    found = true;
                }
                j = j + 1;
            }
            proof {
                if av.contains(id@) {
                    let k = choose|k: int| 0 <= k < av.len() && av[k] == id@;
                    assert(found);
                }
                if found {
                    let k = choose|k: int| 0 <= k < acc@.len() && av[k] == id@;
                    assert(av.contains(id@));
                }
            }
            if !found {
                acc.push(id);
                assert(strings_view(acc@) =~= av.push(idv@));
            }
        }
        i = i + 1;
    }
    assert(nv.take(names@.len() as int) =~= nv);
}

/// The chats: `default`, then the chat directories, without repeats.
pub open spec fn chat_names(dirs: Seq<Seq<char>>) -> Seq<Seq<char>> {
    appended(seq!["default"@], dirs, seq![])
}

/// The memories: `default`, then the `.txt` files of the memory directory
/// without the extension, without repeats.
pub open spec fn memory_names(files: Seq<Seq<char>>) -> Seq<Seq<char>> {
    appended(seq!["default"@], files, ".txt"@)
}

/// The prompts: the templates, then the `.txt` files of the chat's prompt
/// directory without the extension, without repeats; `default` when there
/// are none.
pub open spec fn prompt_names(templates: Seq<Seq<char>>, files: Seq<Seq<char>>) -> Seq<Seq<char>> {
    let a = appended(templates, files, ".txt"@);
    if a.len() == 0 {
        seq!["default"@]
    } else {
        a
    }
}

/// The chats (see `chat_names`); `dirs` are the names of the directories
/// under the chats path.
pub fn get_chats(dirs: &Vec<String>) -> (r: Vec<String>)
    ensures
        strings_view(r@) == chat_names(strings_view(dirs@)),
{
    let mut r: Vec<String> = Vec::new();
    r.push("default".to_owned());
    assert(strings_view(r@) =~= seq!["default"@]);
    append_names(&mut r, dirs, "");
    proof {
        reveal_strlit("");
        assert(""@ =~= Seq::<char>::empty());
    }
    r
}

/// The memories (see `memory_names`); `files` are the names of the files
/// of the memory directory.
pub fn get_memories(files: &Vec<String>) -> (r: Vec<String>)
    ensures
        strings_view(r@) == memory_names(strings_view(files@)),
{
    let mut r: Vec<String> = Vec::new();
    r.push("default".to_owned());
    assert(strings_view(r@) =~= seq!["default"@]);
    append_names(&mut r, files, ".txt");
    r
}

impl Ai {
    /// The prompts of a chat (see `prompt_names`); `files` are the names of
    /// the files of the chat's prompt directory.
    pub fn get_prompts(&self, files: &Vec<String>) -> (r: Vec<String>)
        ensures
            strings_view(r@) == prompt_names(crate::ai::dedup(crate::json::keys_of(Some(crate::ai::at_path(crate::json::jview(self.config), seq!["prompts"@])))), strings_view(files@)),
    {
        let mut r = self.get_prompt_templates();
        append_names(&mut r, files, ".txt");
        if r.len() == 0 {
            r.push("default".to_owned());
            assert(strings_view(r@) =~= seq!["default"@]);
        }
        r
    }

    /// The model bound to the chat: the text of the model file trimmed
    /// (`content`, none when it could not be read), else `default`.
    pub fn read_model(&self, content: Option<&str>) -> (r: String)
        ensures
            r@ == named_id(match content { Some(c) => Some(c@), None => None }, "default"@),
    {
        named_id_of(content, "default")
    }
}

/// The key of a command-line argument: what comes before its first `=`.
pub open spec fn arg_key(arg: Seq<char>) -> Seq<char> {
    split(arg, '=')[0]
}

/// The arguments whose key is not a known key, in order.
pub open spec fn prompt_args(args: Seq<Seq<char>>, known: Seq<Seq<char>>) -> Seq<Seq<char>>
    decreases args.len(),
{
    if args.len() == 0 {
        seq![]
    } else if known.contains(arg_key(args.last())) {
        prompt_args(args.drop_last(), known)
    } else {
        prompt_args(args.drop_last(), known).push(args.last())
    }
}

/// The prompt that the command-line arguments give: the arguments whose key
/// is not a known key, joined by spaces.
pub fn prompt_from_args(args: &Vec<String>, known: &Vec<String>) -> (r: String)
    ensures
        r@ == join(prompt_args(strings_view(args@), strings_view(known@)), " "@),
{
    let ghost av = strings_view(args@);
    let ghost kv = strings_view(known@);
    let mut kept: Vec<Vec<char>> = Vec::new();
    let mut i: usize = 0;
    assert(av.take(0) =~= Seq::<Seq<char>>::empty());
    assert(kept@.map_values(|w: Vec<char>| w@) =~= Seq::<Seq<char>>::empty());
    while i < args.len()
        invariant
            av == strings_view(args@),
            kv == strings_view(known@),
            i <= args@.len(),
            kept@.map_values(|w: Vec<char>| w@) == prompt_args(av.take(i as int), kv),
        decreases args@.len() - i,
    {
        assert(av.take(i + 1).drop_last() =~= av.take(i as int));
        assert(av.take(i + 1).last() == args@[i as int]@);
        let a = chars_of(args[i].as_str());
        let parts = crate::text::split_chars(&a, '=');
        proof {
            crate::text::lemma_split_nonempty(a@, '=');
        }
        let key = string_of(&parts[0]);
        assert(key@ == arg_key(args@[i as int]@));
        let mut found = false;
        let mut j: usize = 0;
        while j < known.len()
            invariant
                kv == strings_view(known@),
                j <= known@.len(),
                found == (exists|k: int| 0 <= k < j && kv[k] == key@),
            decreases known@.len() - j,
        {
            assert(kv[j as int] == known@[j as int]@);
            if crate::text::str_eq(known[j].as_str(), key.as_str()) {
                found = true;
            }
            j = j + 1;
        }
        proof {
            if kv.contains(key@) {
                let k = choose|k: int| 0 <= k < kv.len() && kv[k] == key@;
                assert(found);
            }
            if found {
                let k = choose|k: int| 0 <= k < known@.len() && kv[k] == key@;
                assert(kv.contains(key@));
            }
        }
        if !found {
            let ghost before = kept@.map_values(|w: Vec<char>| w@);
            kept.push(a);
            assert(kept@.map_values(|w: Vec<char>| w@) =~= before.push(args@[i as int]@));
        }
        i = i + 1;
    }
    assert(av.take(args@.len() as int) =~= av);
    let sp = chars_of(" ");
    let j = join_chars(&kept, &sp);
    string_of(&j)
}

} // verus!
