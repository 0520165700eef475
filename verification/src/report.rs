//! The listing of the secrets that a corpus refers to, line by line.

use vstd::prelude::*;
use crate::chart::{
    Usage, VolumeUsage, all_vol_usages_of, grouped_secret_key_refs, grouped_secret_refs,
    grouped_vol_secrets, keys_by_secret, secret_key_refs_of, secret_refs_of, usages_by_secret,
    volume_secrets_of,
};
use crate::groups::{Group, grouped, groups_model, texts_of};
use crate::haystack::Corpus;
use crate::text::{followed_by, glue, glued, pieces};

verus! {

/// The line that stands for an empty list; nothing for a list of `count`
/// items where `count` is not 0.
pub open spec fn none_line(count: nat) -> Seq<Seq<char>> {
    if count == 0 {
        seq!["(None)"@]
    } else {
        Seq::empty()
    }
}

/// Each of `items` behind `indent`.
pub open spec fn indented(indent: Seq<char>, items: Seq<Seq<char>>) -> Seq<Seq<char>> {
    items.map_values(|item: Seq<char>| indent + item)
}

/// The lines for the secrets that are referred to as a whole.
pub open spec fn whole_lines(names: Seq<Seq<char>>) -> Seq<Seq<char>> {
    seq!["REFERENCES TO WHOLE SECRETS"@] + none_line(names.len()) + names.map_values(
        |name: Seq<char>| glued(seq!["  Secret '"@, name, "'"@]),
    )
}

/// The lines for one secret and the keys of it that are referred to.
pub open spec fn key_group_lines(group: (Seq<char>, Seq<Seq<char>>)) -> Seq<Seq<char>> {
    seq![glued(seq!["  Secret '"@, group.0, "':"@])] + indented("    "@, group.1)
}

/// The lines for the secrets that are referred to by key.
pub open spec fn key_lines(groups: Seq<(Seq<char>, Seq<Seq<char>>)>) -> Seq<Seq<char>> {
    seq!["REFERENCES TO SECRET KEYS"@] + none_line(groups.len()) + groups.map_values(
        |group: (Seq<char>, Seq<Seq<char>>)| key_group_lines(group),
    ).flatten()
}

/// The lines for one use of a volume.
pub open spec fn usage_lines(usage: Usage) -> Seq<Seq<char>> {
    seq![
        "    Container: "@ + usage.mounted_in,
        "    Volume Name: "@ + usage.volume_name,
        "    Mount Paths:"@,
    ] + indented("      "@, usage.mount_paths) + seq!["    Usages in deployment:"@] + indented(
        "      "@,
        usage.usages,
    )
}

/// The lines for one secret and the uses of the volumes that it backs.
pub open spec fn vol_group_lines(group: (Seq<char>, Seq<Usage>)) -> Seq<Seq<char>> {
    seq![glued(seq!["   Secret '"@, group.0, "':"@])] + group.1.map_values(
        |usage: Usage| usage_lines(usage),
    ).flatten()
}

/// The lines for the secrets that back volumes.
pub open spec fn vol_lines(groups: Seq<(Seq<char>, Seq<Usage>)>) -> Seq<Seq<char>> {
    seq!["VOLUME SECRETS"@] + none_line(groups.len()) + groups.map_values(
        |group: (Seq<char>, Seq<Usage>)| vol_group_lines(group),
    ).flatten()
}

/// The whole listing: the secrets referred to as a whole, an empty line,
/// those referred to by key, an empty line, those that back volumes.
pub open spec fn listing(
    names: Seq<Seq<char>>,
    by_key: Seq<(Seq<char>, Seq<Seq<char>>)>,
    by_volume: Seq<(Seq<char>, Seq<Usage>)>,
) -> Seq<Seq<char>> {
    whole_lines(names) + seq![""@] + key_lines(by_key) + seq![""@] + vol_lines(by_volume)
}

fn push_none_line(lines: &mut Vec<String>, count: usize)
    ensures
        texts_of(final(lines)@) == texts_of(old(lines)@) + none_line(count as nat),
{
    if count == 0 {
        lines.push("(None)".to_owned());
    }
    assert(texts_of(lines@) =~= texts_of(old(lines)@) + none_line(count as nat));
}

fn push_indented(lines: &mut Vec<String>, indent: &str, items: &Vec<String>)
    ensures
        texts_of(final(lines)@) == texts_of(old(lines)@) + indented(indent@, texts_of(items@)),
{
    let mut i: usize = 0;
    assert(texts_of(lines@) =~= texts_of(old(lines)@) + indented(
        indent@,
        texts_of(items@).take(0),
    ));
    while i < items.len()
        invariant
            i <= items.len(),
            texts_of(lines@) == texts_of(old(lines)@) + indented(
                indent@,
                texts_of(items@).take(i as int),
            ),
        decreases items.len() - i,
    {
        let ghost before = lines@;
        let line = followed_by(indent, items[i].as_str());
        lines.push(line);
        proof {
            assert(texts_of(lines@) =~= texts_of(before).push(line@));
            assert(indented(indent@, texts_of(items@).take(i + 1)) =~= indented(
                indent@,
                texts_of(items@).take(i as int),
            ).push(line@));
        }
        i += 1;
    }
    assert(texts_of(items@).take(i as int) =~= texts_of(items@));
}

fn quoted(before: &str, name: &str, after: &str) -> (line: String)
    ensures
        line@ == glued(seq![before@, name@, after@]),
{
    let parts = vec![before, name, after];
    assert(pieces(parts@) =~= seq![before@, name@, after@]);
    glue(parts)
}

/// The lines that list the secrets which are referred to as a whole and
/// those which are referred to by key.
pub fn secret_ref_lines(
    secret_refs: &Vec<String>,
    groups: &Vec<Group<String>>,
) -> (lines: Vec<String>)
    ensures
        texts_of(lines@) == whole_lines(texts_of(secret_refs@)) + seq![""@] + key_lines(
            groups_model(groups@, |key: String| key@),
        ),
{
    let ghost names = texts_of(secret_refs@);
    let ghost model = groups_model(groups@, |key: String| key@);
    let ghost each = model.map_values(|group: (Seq<char>, Seq<Seq<char>>)| key_group_lines(group));
    let ghost name_line = |name: Seq<char>| glued(seq!["  Secret '"@, name, "'"@]);
    let mut lines: Vec<String> = Vec::new();
    lines.push("REFERENCES TO WHOLE SECRETS".to_owned());
    push_none_line(&mut lines, secret_refs.len());
    let ghost head = texts_of(lines@);
    assert(head =~= seq!["REFERENCES TO WHOLE SECRETS"@] + none_line(names.len()));
    let mut i: usize = 0;
    assert(texts_of(lines@) =~= head + names.take(0).map_values(name_line));
    while i < secret_refs.len()
        invariant
            i <= secret_refs.len(),
            names == texts_of(secret_refs@),
            name_line == |name: Seq<char>| glued(seq!["  Secret '"@, name, "'"@]),
            texts_of(lines@) == head + names.take(i as int).map_values(name_line),
        decreases secret_refs.len() - i,
    {
        let ghost before = lines@;
        let line = quoted("  Secret '", secret_refs[i].as_str(), "'");
        lines.push(line);
        proof {
            assert(texts_of(lines@) =~= texts_of(before).push(line@));
            assert(names.take(i + 1).map_values(name_line) =~= names.take(i as int).map_values(
                name_line,
            ).push(line@));
        }
        i += 1;
    }
    assert(names.take(i as int) =~= names);
    lines.push(String::new());
    lines.push("REFERENCES TO SECRET KEYS".to_owned());
    push_none_line(&mut lines, groups.len());
    let ghost top = texts_of(lines@);
    proof {
        reveal_strlit("");
        assert(""@ =~= Seq::<char>::empty());
        assert(top =~= whole_lines(names) + seq![""@] + seq!["REFERENCES TO SECRET KEYS"@]
            + none_line(model.len()));
        assert(each.take(0) =~= Seq::<Seq<Seq<char>>>::empty());
        assert(texts_of(lines@) =~= top + each.take(0).flatten());
    }
    let mut g: usize = 0;
    while g < groups.len()
        invariant
            g <= groups.len(),
            model == groups_model(groups@, |key: String| key@),
            each == model.map_values(
                |group: (Seq<char>, Seq<Seq<char>>)| key_group_lines(group),
            ),
            texts_of(lines@) == top + each.take(g as int).flatten(),
        decreases groups.len() - g,
    {
        let ghost before = lines@;
        let line = quoted("  Secret '", groups[g].name.as_str(), "':");
        lines.push(line);
        push_indented(&mut lines, "    ", &groups[g].members);
        proof {
            assert(texts_of(before.push(line)) =~= texts_of(before).push(line@));
            assert(each[g as int] =~= seq![line@] + indented(
                "    "@,
                texts_of(groups@[g as int].members@),
            ));
            assert(each.take(g + 1) =~= each.take(g as int).push(each[g as int]));
            each.take(g as int).lemma_flatten_push(each[g as int]);
            assert(texts_of(lines@) =~= top + each.take(g + 1).flatten());
        }
        g += 1;
    }
    assert(each.take(g as int) =~= each);
    assert(texts_of(lines@) =~= whole_lines(names) + seq![""@] + key_lines(model));
    lines
}

fn push_usage_lines(lines: &mut Vec<String>, usage: &VolumeUsage)
    ensures
        texts_of(final(lines)@) == texts_of(old(lines)@) + usage_lines(usage@),
{
    let container = followed_by("    Container: ", usage.mounted_in.as_str());
    let volume = followed_by("    Volume Name: ", usage.volume_name.as_str());
    lines.push(container);
    lines.push(volume);
    lines.push("    Mount Paths:".to_owned());
    let ghost first = texts_of(lines@);
    assert(first =~= texts_of(old(lines)@) + seq![
        "    Container: "@ + usage@.mounted_in,
        "    Volume Name: "@ + usage@.volume_name,
        "    Mount Paths:"@,
    ]);
    push_indented(lines, "      ", &usage.mount_paths);
    let ghost second = texts_of(lines@);
    lines.push("    Usages in deployment:".to_owned());
    assert(texts_of(lines@) =~= second + seq!["    Usages in deployment:"@]);
    push_indented(lines, "      ", &usage.usages);
    assert(texts_of(lines@) =~= texts_of(old(lines)@) + usage_lines(usage@));
}

/// The lines that list the secrets which back volumes, and how the volumes
/// are used.
pub fn vol_secret_lines(groups: &Vec<Group<VolumeUsage>>) -> (lines: Vec<String>)
    ensures
        texts_of(lines@) == vol_lines(groups_model(groups@, |u: VolumeUsage| u@)),
{
    let ghost model = groups_model(groups@, |u: VolumeUsage| u@);
    let ghost each = model.map_values(|group: (Seq<char>, Seq<Usage>)| vol_group_lines(group));
    let mut lines: Vec<String> = Vec::new();
    lines.push("VOLUME SECRETS".to_owned());
    push_none_line(&mut lines, groups.len());
    let ghost top = texts_of(lines@);
    proof {
        assert(top =~= seq!["VOLUME SECRETS"@] + none_line(model.len()));
        assert(each.take(0) =~= Seq::<Seq<Seq<char>>>::empty());
        assert(texts_of(lines@) =~= top + each.take(0).flatten());
    }
    let mut g: usize = 0;
    while g < groups.len()
        invariant
            g <= groups.len(),
            model == groups_model(groups@, |u: VolumeUsage| u@),
            each == model.map_values(|group: (Seq<char>, Seq<Usage>)| vol_group_lines(group)),
            texts_of(lines@) == top + each.take(g as int).flatten(),
        decreases groups.len() - g,
    {
        let ghost before = texts_of(lines@);
        let group = &groups[g];
        let ghost uses = model[g as int].1;
        let ghost per_use = uses.map_values(|usage: Usage| usage_lines(usage));
        let line = quoted("   Secret '", group.name.as_str(), "':");
        lines.push(line);
        let ghost start = texts_of(lines@);
        let mut u: usize = 0;
        proof {
            assert(start =~= before + seq![line@]);
            assert(per_use.take(0) =~= Seq::<Seq<Seq<char>>>::empty());
            assert(texts_of(lines@) =~= start + per_use.take(0).flatten());
        }
        while u < group.members.len()
            invariant
                u <= group.members.len(),
                uses == group.members@.map_values(|u: VolumeUsage| u@),
                per_use == uses.map_values(|usage: Usage| usage_lines(usage)),
                texts_of(lines@) == start + per_use.take(u as int).flatten(),
            decreases group.members.len() - u,
        {
            push_usage_lines(&mut lines, &group.members[u]);
            proof {
                assert(per_use.take(u + 1) =~= per_use.take(u as int).push(per_use[u as int]));
                per_use.take(u as int).lemma_flatten_push(per_use[u as int]);
                assert(texts_of(lines@) =~= start + per_use.take(u + 1).flatten());
            }
            u += 1;
        }
        proof {
            assert(per_use.take(u as int) =~= per_use);
            assert(each[g as int] =~= seq![line@] + per_use.flatten());
            assert(each.take(g + 1) =~= each.take(g as int).push(each[g as int]));
            each.take(g as int).lemma_flatten_push(each[g as int]);
            assert(texts_of(lines@) =~= top + each.take(g + 1).flatten());
        }
        g += 1;
    }
    assert(each.take(g as int) =~= each);
    lines
}

/// The listing of the secrets that `corpus` refers to, line by line.
pub fn list_secrets(corpus: &Corpus) -> (lines: Vec<String>)
    ensures
        texts_of(lines@) == listing(
            secret_refs_of(corpus.mappings()),
            grouped(keys_by_secret(secret_key_refs_of(corpus.mappings()))),
            grouped(
                usages_by_secret(
                    all_vol_usages_of(corpus.mappings(), volume_secrets_of(corpus.mappings())),
                ),
            ),
        ),
{
    let secret_refs = grouped_secret_refs(corpus);
    let by_key = grouped_secret_key_refs(corpus);
    let by_volume = grouped_vol_secrets(corpus);
    let mut lines = secret_ref_lines(&secret_refs, &by_key);
    let ghost first = texts_of(lines@);
    lines.push(String::new());
    let mut more = vol_secret_lines(&by_volume);
    let ghost second = texts_of(more@);
    lines.append(&mut more);
    proof {
        reveal_strlit("");
        assert(""@ =~= Seq::<char>::empty());
        assert(texts_of(lines@) =~= first + seq![""@] + second);
    }
    lines
}

} // verus!
