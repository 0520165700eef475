//! The secrets that a set of manifests refers to: as a whole, key by key,
//! or mounted as a volume.

use vstd::prelude::*;
use crate::groups::{Group, distinct, first_seen, group_by_name, grouped, groups_model, labelled_model, texts_of};
use crate::haystack::{Corpus, entries_of, trees_of};
use crate::sequences::{answered, flatten_all, kept, lemma_filter_map_concat, lemma_flatten_models, lemma_kept_models, seqs_of, shown};
use crate::text::{chars_of, contains_chars, contains_text, occurs_at, same_text};
use crate::tree::{Entry, MapNode, Node, Tree, lookup};

verus! {

/// A reference to a whole secret, by its name.
#[derive(Debug)]
pub struct SecretRef(pub String);

/// A reference to one key of a secret.
#[derive(Debug)]
pub struct SecretKeyRef {
    pub name: String,
    pub key: String,
}

/// The model of a [`SecretKeyRef`].
pub struct KeyRef {
    pub name: Seq<char>,
    pub key: Seq<char>,
}

impl View for SecretRef {
    type V = Seq<char>;

    open spec fn view(&self) -> Seq<char> {
        self.0@
    }
}

impl View for SecretKeyRef {
    type V = KeyRef;

    open spec fn view(&self) -> KeyRef {
        KeyRef { name: self.name@, key: self.key@ }
    }
}

/// The text under `key`, where `entries` hold a string there.
pub open spec fn str_at(entries: Seq<Entry>, key: Seq<char>) -> Option<Seq<char>> {
    match lookup(entries, key) {
        Some(Tree::String(text)) => Some(text),
        _ => None,
    }
}

/// The entries under `key`, where `entries` hold a mapping there.
pub open spec fn mapping_at(entries: Seq<Entry>, key: Seq<char>) -> Option<Seq<Entry>> {
    match lookup(entries, key) {
        Some(Tree::Mapping(inner)) => Some(inner),
        _ => None,
    }
}

/// The items under `key`, where `entries` hold a sequence there.
pub open spec fn sequence_at(entries: Seq<Entry>, key: Seq<char>) -> Option<Seq<Tree>> {
    match lookup(entries, key) {
        Some(Tree::Sequence(items)) => Some(items),
        _ => None,
    }
}

/// The secret that a mapping refers to as a whole: the string `name` of the
/// mapping under `secretRef`. Any other shape refers to none.
pub open spec fn secret_ref_in(mapping: Seq<Entry>) -> Option<Seq<char>> {
    match mapping_at(mapping, "secretRef"@) {
        Some(inner) => str_at(inner, "name"@),
        None => None,
    }
}

/// The key of a secret that a mapping refers to: the strings `name` and
/// `key` of the mapping under `secretKeyRef`. Any other shape refers to none.
pub open spec fn secret_key_ref_in(mapping: Seq<Entry>) -> Option<KeyRef> {
    match mapping_at(mapping, "secretKeyRef"@) {
        Some(inner) => match (str_at(inner, "name"@), str_at(inner, "key"@)) {
            (Some(name), Some(key)) => Some(KeyRef { name, key }),
            _ => None,
        },
        None => None,
    }
}

fn text_at<'a>(mapping: &'a MapNode, key: &str) -> (text: Option<&'a str>)
    ensures
        match text {
            Some(t) => str_at(mapping@, key@) == Some(t@),
            None => str_at(mapping@, key@) is None,
        },
{
    match mapping.get(key) {
        Some(node) => node.as_str(),
        None => None,
    }
}

fn inner_mapping<'a>(mapping: &'a MapNode, key: &str) -> (inner: Option<&'a MapNode>)
    ensures
        match inner {
            Some(m) => mapping_at(mapping@, key@) == Some(m@),
            None => mapping_at(mapping@, key@) is None,
        },
{
    match mapping.get(key) {
        Some(node) => node.as_mapping(),
        None => None,
    }
}

/// The reference to a whole secret that `m` makes, if it makes one.
pub fn filter_map_secret_ref(m: &MapNode) -> (found: Option<SecretRef>)
    ensures
        shown(found, |r: SecretRef| r@) == secret_ref_in(m@),
{
    let secrets = inner_mapping(m, "secretRef")?;
    let name = text_at(secrets, "name")?.to_owned();
    Some(SecretRef(name))
}

/// The reference to a key of a secret that `m` makes, if it makes one.
pub fn filter_map_secret_key_ref(m: &MapNode) -> (found: Option<SecretKeyRef>)
    ensures
        shown(found, |r: SecretKeyRef| r@) == secret_key_ref_in(m@),
{
    let secrets = inner_mapping(m, "secretKeyRef")?;
    let name = text_at(secrets, "name")?.to_owned();
    let key = text_at(secrets, "key")?.to_owned();
    Some(SecretKeyRef { name, key })
}

/// The secrets that the given mappings refer to as a whole, in order.
pub open spec fn secret_refs_of(mappings: Seq<Seq<Entry>>) -> Seq<Seq<char>> {
    mappings.filter_map(|m: Seq<Entry>| secret_ref_in(m))
}

/// The keys of secrets that the given mappings refer to, in order.
pub open spec fn secret_key_refs_of(mappings: Seq<Seq<Entry>>) -> Seq<KeyRef> {
    mappings.filter_map(|m: Seq<Entry>| secret_key_ref_in(m))
}

/// The models of `refs`, one for one.
pub open spec fn names_of(refs: Seq<SecretRef>) -> Seq<Seq<char>> {
    refs.map_values(|r: SecretRef| r@)
}

/// The models of `refs`, one for one.
pub open spec fn key_refs_of(refs: Seq<SecretKeyRef>) -> Seq<KeyRef> {
    refs.map_values(|r: SecretKeyRef| r@)
}

/// Every reference to a whole secret in `corpus`, in document order.
pub fn find_secret_refs(corpus: &Corpus) -> (found: Vec<SecretRef>)
    ensures
        names_of(found@) == secret_refs_of(corpus.mappings()),
{
    let found = corpus.filter_map_mappings(filter_map_secret_ref);
    proof {
        let (visited, yields) = choose|visited: Seq<MapNode>, yields: Seq<Option<SecretRef>>|
            {
                &&& entries_of(visited) == corpus.mappings()
                &&& answered(filter_map_secret_ref, visited, yields)
                &&& found@ == kept(yields)
            };
        lemma_kept_models(
            visited,
            |m: MapNode| m@,
            yields,
            |r: SecretRef| r@,
            |m: Seq<Entry>| secret_ref_in(m),
        );
    }
    found
}

/// Every reference to a key of a secret in `corpus`, in document order.
pub fn find_secret_key_refs(corpus: &Corpus) -> (found: Vec<SecretKeyRef>)
    ensures
        key_refs_of(found@) == secret_key_refs_of(corpus.mappings()),
{
    let found = corpus.filter_map_mappings(filter_map_secret_key_ref);
    proof {
        let (visited, yields) = choose|visited: Seq<MapNode>, yields: Seq<Option<SecretKeyRef>>|
            {
                &&& entries_of(visited) == corpus.mappings()
                &&& answered(filter_map_secret_key_ref, visited, yields)
                &&& found@ == kept(yields)
            };
        lemma_kept_models(
            visited,
            |m: MapNode| m@,
            yields,
            |r: SecretKeyRef| r@,
            |m: Seq<Entry>| secret_key_ref_in(m),
        );
    }
    found
}

/// A volume that a secret backs.
#[derive(Debug)]
pub struct VolumeSecret {
    pub volume_name: String,
    pub secret_name: String,
}

/// The model of a [`VolumeSecret`].
pub struct Volume {
    pub volume_name: Seq<char>,
    pub secret_name: Seq<char>,
}

impl View for VolumeSecret {
    type V = Volume;

    open spec fn view(&self) -> Volume {
        Volume { volume_name: self.volume_name@, secret_name: self.secret_name@ }
    }
}

/// The models of `secrets`, one for one.
pub open spec fn volumes_of(secrets: Seq<VolumeSecret>) -> Seq<Volume> {
    secrets.map_values(|s: VolumeSecret| s@)
}

/// The secret-backed volume that one item of a `volumes` list declares: a
/// mapping with a string `name` and a mapping `secret` whose `secretName` is
/// a string. An item of any other shape declares none.
pub open spec fn volume_secret_of(volume: Tree) -> Option<Volume> {
    match volume {
        Tree::Mapping(entries) => match (
            str_at(entries, "name"@),
            mapping_at(entries, "secret"@),
        ) {
            (Some(volume_name), Some(secret)) => match str_at(secret, "secretName"@) {
                Some(secret_name) => Some(Volume { volume_name, secret_name }),
                None => None,
            },
            _ => None,
        },
        _ => None,
    }
}

/// The secret-backed volumes that a mapping declares in its `volumes`
/// sequence, in order; `None` where it has no such sequence.
pub open spec fn volume_secrets_in(mapping: Seq<Entry>) -> Option<Seq<Volume>> {
    match sequence_at(mapping, "volumes"@) {
        Some(volumes) => Some(volumes.filter_map(|volume: Tree| volume_secret_of(volume))),
        None => None,
    }
}

fn inner_sequence<'a>(mapping: &'a MapNode, key: &str) -> (inner: Option<&'a Vec<Node>>)
    ensures
        match inner {
            Some(items) => sequence_at(mapping@, key@) == Some(
                items@.map_values(|item: Node| item@),
            ),
            None => sequence_at(mapping@, key@) is None,
        },
{
    match mapping.get(key) {
        Some(node) => node.as_sequence(),
        None => None,
    }
}

fn volume_secret(volume: &Node) -> (found: Option<VolumeSecret>)
    ensures
        shown(found, |s: VolumeSecret| s@) == volume_secret_of(volume@),
{
    let entries = volume.as_mapping()?;
    let name = text_at(entries, "name")?;
    let secret = inner_mapping(entries, "secret")?;
    let secret_name = text_at(secret, "secretName")?;
    Some(VolumeSecret { volume_name: name.to_owned(), secret_name: secret_name.to_owned() })
}

/// The secret-backed volumes that `m` declares, if it declares volumes.
pub fn filter_map_vol_secrets(m: &MapNode) -> (found: Option<Vec<VolumeSecret>>)
    ensures
        shown(found, |secrets: Vec<VolumeSecret>| volumes_of(secrets@)) == volume_secrets_in(m@),
{
    let volumes = inner_sequence(m, "volumes")?;
    let ghost trees = volumes@.map_values(|item: Node| item@);
    let ghost pick = |volume: Tree| volume_secret_of(volume);
    let mut found: Vec<VolumeSecret> = Vec::new();
    let mut i: usize = 0;
    assert(trees.take(0) =~= Seq::<Tree>::empty());
    assert(volumes_of(found@) =~= trees.take(0).filter_map(pick));
    while i < volumes.len()
        invariant
            i <= volumes.len(),
            trees == volumes@.map_values(|item: Node| item@),
            pick == |volume: Tree| volume_secret_of(volume),
            volumes_of(found@) == trees.take(i as int).filter_map(pick),
        decreases volumes.len() - i,
    {
        let ghost before = found@;
        proof {
            assert(trees.take(i + 1).drop_last() =~= trees.take(i as int));
            assert(trees.take(i + 1).last() == volumes@[i as int]@);
        }
        if let Some(secret) = volume_secret(&volumes[i]) {
            found.push(secret);
            assert(volumes_of(found@) =~= volumes_of(before) + seq![secret@]);
        }
        i += 1;
    }
    assert(trees.take(i as int) =~= trees);
    Some(found)
}

/// The secret-backed volumes that the mappings of a corpus declare.
pub open spec fn volume_secrets_of(mappings: Seq<Seq<Entry>>) -> Seq<Volume> {
    mappings.filter_map(|m: Seq<Entry>| volume_secrets_in(m)).flatten()
}

/// Every secret-backed volume that `corpus` declares, in document order.
pub fn find_vol_secrets(corpus: &Corpus) -> (found: Vec<VolumeSecret>)
    ensures
        volumes_of(found@) == volume_secrets_of(corpus.mappings()),
{
    let groups = corpus.filter_map_mappings(filter_map_vol_secrets);
    let ghost all = groups@;
    let found = flatten_all(groups);
    proof {
        let (visited, yields) = choose|
            visited: Seq<MapNode>,
            yields: Seq<Option<Vec<VolumeSecret>>>,
        |
            {
                &&& entries_of(visited) == corpus.mappings()
                &&& answered(filter_map_vol_secrets, visited, yields)
                &&& all == kept(yields)
            };
        let model = |secrets: Vec<VolumeSecret>| volumes_of(secrets@);
        lemma_kept_models(
            visited,
            |m: MapNode| m@,
            yields,
            model,
            |m: Seq<Entry>| volume_secrets_in(m),
        );
        lemma_flatten_models(seqs_of(all), |s: VolumeSecret| s@);
        assert(seqs_of(all).map_values(
            |group: Seq<VolumeSecret>| group.map_values(|s: VolumeSecret| s@),
        ) =~= all.map_values(model));
    }
    found
}

/// Where a container mounts a secret-backed volume, and where it mentions
/// what it mounted.
#[derive(Debug)]
pub struct VolumeUsage {
    pub volume_name: String,
    pub secret_name: String,
    pub mounted_in: String,
    pub mount_paths: Vec<String>,
    pub usages: Vec<String>,
}

/// The model of a [`VolumeUsage`].
pub struct Usage {
    pub volume_name: Seq<char>,
    pub secret_name: Seq<char>,
    pub mounted_in: Seq<char>,
    pub mount_paths: Seq<Seq<char>>,
    pub usages: Seq<Seq<char>>,
}

impl View for VolumeUsage {
    type V = Usage;

    open spec fn view(&self) -> Usage {
        Usage {
            volume_name: self.volume_name@,
            secret_name: self.secret_name@,
            mounted_in: self.mounted_in@,
            mount_paths: texts_of(self.mount_paths@),
            usages: texts_of(self.usages@),
        }
    }
}

/// The models of `usages`, one for one.
pub open spec fn usages_of(usages: Seq<VolumeUsage>) -> Seq<Usage> {
    usages.map_values(|u: VolumeUsage| u@)
}

/// By what a container is known: its `name` where it has one, else its
/// `image`; in either case only where that is a string.
pub open spec fn container_name(container: Seq<Entry>) -> Option<Seq<char>> {
    match lookup(container, "name"@) {
        Some(name) => name.as_str(),
        None => str_at(container, "image"@),
    }
}

/// The path at which one item of a `volumeMounts` list mounts the volume
/// `volume_name`: the string `mountPath` of a mapping whose `name` is that
/// volume. An item of any other shape mounts it nowhere.
pub open spec fn mount_path_in(mount: Tree, volume_name: Seq<char>) -> Option<Seq<char>> {
    match mount {
        Tree::Mapping(entries) => if str_at(entries, "name"@) == Some(volume_name) {
            str_at(entries, "mountPath"@)
        } else {
            None
        },
        _ => None,
    }
}

/// The paths at which `mounts` mount the volume `volume_name`, in order.
pub open spec fn mount_paths_in(mounts: Seq<Tree>, volume_name: Seq<char>) -> Seq<Seq<char>> {
    mounts.filter_map(|mount: Tree| mount_path_in(mount, volume_name))
}

/// `path` with the path separator behind it.
pub open spec fn below(path: Seq<char>) -> Seq<char> {
    path.push('/')
}

/// `text` holds one of `paths` followed by the path separator: it speaks of
/// something below a mount path. The bare path does not count.
pub open spec fn mentions(text: Seq<char>, paths: Seq<Seq<char>>) -> bool {
    exists|k: int| 0 <= k < paths.len() && contains_text(text, below(#[trigger] paths[k]))
}

/// The text of a string node that mentions one of `paths`; `None` for every
/// other node.
pub open spec fn usage_in(node: Tree, paths: Seq<Seq<char>>) -> Option<Seq<char>> {
    match node {
        Tree::String(text) => if mentions(text, paths) {
            Some(text)
        } else {
            None
        },
        _ => None,
    }
}

/// How `container` uses `volume`: where it mounts it, and every string in
/// or below the container, in pre-order, that mentions a mount path. `None`
/// where the container does not mount the volume, or is no container: no
/// mapping, not known by a string, or without a sequence `volumeMounts`.
pub open spec fn usage_by(container: Tree, volume: Volume) -> Option<Usage> {
    match container {
        Tree::Mapping(entries) => match (
            container_name(entries),
            sequence_at(entries, "volumeMounts"@),
        ) {
            (Some(name), Some(mounts)) => {
                let paths = mount_paths_in(mounts, volume.volume_name);
                if paths.len() == 0 {
                    None
                } else {
                    Some(
                        Usage {
                            volume_name: volume.volume_name,
                            secret_name: volume.secret_name,
                            mounted_in: name,
                            mount_paths: paths,
                            usages: container.nodes().filter_map(|node: Tree| usage_in(node, paths)),
                        },
                    )
                }
            },
            _ => None,
        },
        _ => None,
    }
}

/// How the containers of a mapping use `volume`: one record for each item of
/// its `containers` sequence that mounts the volume, in order. An item that
/// does not mount it, or is no container, is passed over and leaves the
/// records of the others as they are. `None` where the mapping has no such
/// sequence.
pub open spec fn vol_usages_in(mapping: Seq<Entry>, volume: Volume) -> Option<Seq<Usage>> {
    match sequence_at(mapping, "containers"@) {
        Some(containers) => Some(
            containers.filter_map(|container: Tree| usage_by(container, volume)),
        ),
        None => None,
    }
}

/// The characters of each of `paths`, the path separator behind them.
pub open spec fn needles_of(paths: Seq<Seq<char>>) -> Seq<Seq<char>> {
    paths.map_values(|path: Seq<char>| below(path))
}

fn usage_of(
    node: &Node,
    needles: &Vec<Vec<char>>,
    Ghost(paths): Ghost<Seq<Seq<char>>>,
) -> (found: Option<String>)
    requires
        seqs_of(needles@) == needles_of(paths),
    ensures
        shown(found, |s: String| s@) == usage_in(node@, paths),
{
    let text = node.as_str()?;
    let chars = chars_of(text);
    let mut k: usize = 0;
    assert(seqs_of(needles@).len() == needles_of(paths).len());
    while k < needles.len()
        invariant
            k <= needles.len(),
            needles@.len() == paths.len(),
            node@ == Tree::String(text@),
            chars@ == text@,
            seqs_of(needles@) == needles_of(paths),
            forall|j: int| 0 <= j < k ==> !contains_text(text@, below(#[trigger] paths[j])),
        decreases needles.len() - k,
    {
        proof {
            assert(seqs_of(needles@)[k as int] == needles@[k as int]@);
            assert(needles_of(paths)[k as int] == below(paths[k as int]));
        }
        if contains_chars(&chars, &needles[k]) {
            assert(mentions(text@, paths));
            return Some(text.to_owned());
        }
        k += 1;
    }
    None
}

/// The paths at which `mounts` mount the volume `volume_name`.
fn mount_paths(mounts: &Vec<Node>, volume_name: &str) -> (paths: Vec<String>)
    ensures
        texts_of(paths@) == mount_paths_in(trees_of(mounts@), volume_name@),
{
    let ghost trees = trees_of(mounts@);
    let ghost pick = |mount: Tree| mount_path_in(mount, volume_name@);
    let mut paths: Vec<String> = Vec::new();
    let mut i: usize = 0;
    assert(trees.take(0) =~= Seq::<Tree>::empty());
    assert(texts_of(paths@) =~= trees.take(0).filter_map(pick));
    while i < mounts.len()
        invariant
            i <= mounts.len(),
            trees == trees_of(mounts@),
            pick == |mount: Tree| mount_path_in(mount, volume_name@),
            texts_of(paths@) == trees.take(i as int).filter_map(pick),
        decreases mounts.len() - i,
    {
        let ghost before = paths@;
        proof {
            assert(trees.take(i + 1).drop_last() =~= trees.take(i as int));
            assert(trees.take(i + 1).last() == mounts@[i as int]@);
        }
        if let Some(path) = mount_path(&mounts[i], volume_name) {
            paths.push(path);
            assert(texts_of(paths@) =~= texts_of(before) + seq![path@]);
        }
        i += 1;
    }
    assert(trees.take(i as int) =~= trees);
    paths
}

fn mapping_has_value(m: &Node, key: &str, val: &str) -> (has: bool)
    ensures
        has == (m@ matches Tree::Mapping(entries) && str_at(entries, key@) == Some(val@)),
{
    match m.as_mapping() {
        Some(entries) => match text_at(entries, key) {
            Some(held) => same_text(held, val),
            None => false,
        },
        None => false,
    }
}

fn mount_path(mount: &Node, volume_name: &str) -> (path: Option<String>)
    ensures
        shown(path, |s: String| s@) == mount_path_in(mount@, volume_name@),
{
    if !mapping_has_value(mount, "name", volume_name) {
        return None;
    }
    let path = text_at(mount.as_mapping()?, "mountPath")?;
    Some(path.to_owned())
}

/// The characters of each of `paths`, the path separator behind them.
fn needles(paths: &Vec<String>) -> (needles: Vec<Vec<char>>)
    ensures
        seqs_of(needles@) == needles_of(texts_of(paths@)),
{
    let mut needles: Vec<Vec<char>> = Vec::new();
    let mut i: usize = 0;
    while i < paths.len()
        invariant
            i <= paths.len(),
            needles@.len() == i,
            forall|j: int| 0 <= j < i ==> (#[trigger] needles@[j])@ == below(paths@[j]@),
        decreases paths.len() - i,
    {
        let mut needle = chars_of(paths[i].as_str());
        needle.push('/');
        needles.push(needle);
        i += 1;
    }
    assert(seqs_of(needles@) =~= needles_of(texts_of(paths@)));
    needles
}

fn known_as(container: &MapNode) -> (name: Option<&str>)
    ensures
        match name {
            Some(n) => container_name(container@) == Some(n@),
            None => container_name(container@) is None,
        },
{
    match container.get("name") {
        Some(name) => name.as_str(),
        None => text_at(container, "image"),
    }
}

/// How the container `container_v` uses the volume of `secret`, if it
/// mounts it.
fn container_usage(container_v: &Node, secret: &VolumeSecret) -> (found: Option<VolumeUsage>)
    ensures
        shown(found, |usage: VolumeUsage| usage@) == usage_by(container_v@, secret@),
{
    let container = container_v.as_mapping()?;
    let name = known_as(container)?;
    let mounts = inner_sequence(container, "volumeMounts")?;
    let mount_paths = mount_paths(mounts, secret.volume_name.as_str());
    if mount_paths.len() == 0 {
        return None;
    }
    let paths: Ghost<Seq<Seq<char>>> = Ghost(texts_of(mount_paths@));
    let needles = needles(&mount_paths);
    let mentioned = |v: &Node| -> (found: Option<String>)
        ensures
            shown(found, |s: String| s@) == usage_in(v@, paths@),
        { usage_of(v, &needles, paths) };
    let usages = Corpus::filter_map_values_from(container_v, mentioned);
    proof {
        let (visited, yields) = choose|visited: Seq<Node>, yields: Seq<Option<String>>|
            {
                &&& trees_of(visited) == container_v@.nodes()
                &&& answered(mentioned, visited, yields)
                &&& usages@ == kept(yields)
            };
        lemma_kept_models(
            visited,
            |v: Node| v@,
            yields,
            |s: String| s@,
            |node: Tree| usage_in(node, paths@),
        );
    }
    Some(
        VolumeUsage {
            volume_name: secret.volume_name.clone(),
            secret_name: secret.secret_name.clone(),
            mounted_in: name.to_owned(),
            mount_paths,
            usages,
        },
    )
}

/// How the containers of `m` use the volume of `secret`, if `m` lists
/// containers. A container that does not mount the volume, or is of
/// another shape, is passed over.
pub fn filter_map_vol_usages(
    m: &MapNode,
    secret: &VolumeSecret,
) -> (found: Option<Vec<VolumeUsage>>)
    ensures
        shown(found, |usages: Vec<VolumeUsage>| usages_of(usages@)) == vol_usages_in(m@, secret@),
{
    let containers = inner_sequence(m, "containers")?;
    let ghost trees = trees_of(containers@);
    let ghost pick = |container: Tree| usage_by(container, secret@);
    let mut res: Vec<VolumeUsage> = Vec::new();
    let mut i: usize = 0;
    assert(trees.take(0) =~= Seq::<Tree>::empty());
    assert(usages_of(res@) =~= trees.take(0).filter_map(pick));
    while i < containers.len()
        invariant
            i <= containers.len(),
            trees == trees_of(containers@),
            pick == |container: Tree| usage_by(container, secret@),
            usages_of(res@) == trees.take(i as int).filter_map(pick),
        decreases containers.len() - i,
    {
        let ghost before = res@;
        proof {
            assert(trees.take(i + 1).drop_last() =~= trees.take(i as int));
            assert(trees.take(i + 1).last() == containers@[i as int]@);
        }
        if let Some(usage) = container_usage(&containers[i], secret) {
            res.push(usage);
            assert(usages_of(res@) =~= usages_of(before) + seq![usage@]);
        }
        i += 1;
    }
    assert(trees.take(i as int) =~= trees);
    Some(res)
}

/// How the containers of the given mappings use `volume`: the records of
/// each mapping that lists containers, mapping after mapping.
pub open spec fn vol_usages_of(mappings: Seq<Seq<Entry>>, volume: Volume) -> Seq<Usage> {
    mappings.filter_map(|m: Seq<Entry>| vol_usages_in(m, volume)).flatten()
}

/// How the containers of the given mappings use each of `volumes`: the
/// records for the first volume, then those for the second, and so on.
pub open spec fn all_vol_usages_of(
    mappings: Seq<Seq<Entry>>,
    volumes: Seq<Volume>,
) -> Seq<Usage> {
    volumes.map_values(|volume: Volume| vol_usages_of(mappings, volume)).flatten()
}

/// Every use that the containers of `corpus` make of the volume of
/// `volume_secret`, in document order.
pub fn find_vol_usages(corpus: &Corpus, volume_secret: &VolumeSecret) -> (found: Vec<VolumeUsage>)
    ensures
        usages_of(found@) == vol_usages_of(corpus.mappings(), volume_secret@),
{
    let scan = |m: &MapNode| -> (found: Option<Vec<VolumeUsage>>)
        ensures
            shown(found, |usages: Vec<VolumeUsage>| usages_of(usages@)) == vol_usages_in(
                m@,
                volume_secret@,
            ),
        { filter_map_vol_usages(m, volume_secret) };
    let groups = corpus.filter_map_mappings(scan);
    let ghost all = groups@;
    let found = flatten_all(groups);
    proof {
        let (visited, yields) = choose|
            visited: Seq<MapNode>,
            yields: Seq<Option<Vec<VolumeUsage>>>,
        |
            {
                &&& entries_of(visited) == corpus.mappings()
                &&& answered(scan, visited, yields)
                &&& all == kept(yields)
            };
        let model = |usages: Vec<VolumeUsage>| usages_of(usages@);
        lemma_kept_models(
            visited,
            |m: MapNode| m@,
            yields,
            model,
            |m: Seq<Entry>| vol_usages_in(m, volume_secret@),
        );
        lemma_flatten_models(seqs_of(all), |u: VolumeUsage| u@);
        assert(seqs_of(all).map_values(
            |group: Seq<VolumeUsage>| group.map_values(|u: VolumeUsage| u@),
        ) =~= all.map_values(model));
    }
    found
}

/// Every use that the containers of `corpus` make of the volumes of
/// `secrets`: all uses of the first, then all uses of the second, and so on.
pub fn find_all_vol_usages(corpus: &Corpus, secrets: &[VolumeSecret]) -> (found: Vec<VolumeUsage>)
    ensures
        usages_of(found@) == all_vol_usages_of(corpus.mappings(), volumes_of(secrets@)),
{
    let ghost mappings = corpus.mappings();
    let ghost volumes = volumes_of(secrets@);
    let ghost each = volumes.map_values(|volume: Volume| vol_usages_of(mappings, volume));
    let mut res: Vec<VolumeUsage> = Vec::new();
    let mut i: usize = 0;
    assert(each.take(0) =~= Seq::<Seq<Usage>>::empty());
    while i < secrets.len()
        invariant
            i <= secrets.len(),
            mappings == corpus.mappings(),
            volumes == volumes_of(secrets@),
            each == volumes.map_values(|volume: Volume| vol_usages_of(mappings, volume)),
            usages_of(res@) == each.take(i as int).flatten(),
        decreases secrets.len() - i,
    {
        let ghost before = res@;
        let mut more = find_vol_usages(corpus, &secrets[i]);
        let ghost added = more@;
        res.append(&mut more);
        proof {
            assert(usages_of(res@) =~= usages_of(before) + usages_of(added));
            assert(each.take(i + 1) =~= each.take(i as int).push(usages_of(added)));
            each.take(i as int).lemma_flatten_push(usages_of(added));
        }
        i += 1;
    }
    assert(each.take(i as int) =~= each);
    res
}

/// Each reference to a key, as the key under the name of its secret.
pub open spec fn keys_by_secret(refs: Seq<KeyRef>) -> Seq<(Seq<char>, Seq<char>)> {
    refs.map_values(|r: KeyRef| (r.name, r.key))
}

/// Each use of a volume under the name of the secret that backs it.
pub open spec fn usages_by_secret(usages: Seq<Usage>) -> Seq<(Seq<char>, Usage)> {
    usages.map_values(|u: Usage| (u.secret_name, u))
}

/// The keys that `corpus` refers to, gathered by secret: one group for each
/// secret, in the order in which the secrets are first referred to, with its
/// keys in document order.
pub fn grouped_secret_key_refs(corpus: &Corpus) -> (groups: Vec<Group<String>>)
    ensures
        groups_model(groups@, |key: String| key@) == grouped(
            keys_by_secret(secret_key_refs_of(corpus.mappings())),
        ),
{
    let env_secrets = find_secret_key_refs(corpus);
    let ghost refs = key_refs_of(env_secrets@);
    let ghost model = |key: String| key@;
    let mut labelled: Vec<(String, String)> = Vec::new();
    for s in it: env_secrets
        invariant
            refs == key_refs_of(it.seq()),
            model == |key: String| key@,
            labelled_model(labelled@, model) == keys_by_secret(refs.take(it.index() as int)),
    {
        let ghost before = labelled@;
        labelled.push((s.name, s.key));
        assert(labelled_model(labelled@, model) =~= labelled_model(before, model).push(
            (s.name@, s.key@),
        ));
        assert(keys_by_secret(refs.take(it.index() + 1)) =~= keys_by_secret(
            refs.take(it.index() as int),
        ).push((s.name@, s.key@)));
    }
    assert(refs.take(refs.len() as int) =~= refs);
    group_by_name::<String, Seq<char>>(labelled, Ghost(model))
}

/// The secrets that `corpus` refers to as a whole, in document order.
pub fn grouped_secret_refs(corpus: &Corpus) -> (names: Vec<String>)
    ensures
        texts_of(names@) == secret_refs_of(corpus.mappings()),
{
    let refs = find_secret_refs(corpus);
    let ghost all = names_of(refs@);
    let mut names: Vec<String> = Vec::new();
    for r in it: refs
        invariant
            all == names_of(it.seq()),
            texts_of(names@) == all.take(it.index() as int),
    {
        let ghost before = names@;
        names.push(r.0);
        assert(texts_of(names@) =~= texts_of(before).push(r.0@));
        assert(all.take(it.index() + 1) =~= all.take(it.index() as int).push(r@));
    }
    assert(all.take(all.len() as int) =~= all);
    names
}

/// The uses that the containers of `corpus` make of secret-backed volumes,
/// gathered by secret: one group for each secret, in the order in which the
/// uses are found, volume after volume.
pub fn grouped_vol_secrets(corpus: &Corpus) -> (groups: Vec<Group<VolumeUsage>>)
    ensures
        groups_model(groups@, |u: VolumeUsage| u@) == grouped(
            usages_by_secret(
                all_vol_usages_of(corpus.mappings(), volume_secrets_of(corpus.mappings())),
            ),
        ),
{
    let vol_secrets = find_vol_secrets(corpus);
    let vol_usages = find_all_vol_usages(corpus, vol_secrets.as_slice());
    let ghost usages = usages_of(vol_usages@);
    let ghost model = |u: VolumeUsage| u@;
    let mut labelled: Vec<(String, VolumeUsage)> = Vec::new();
    for s in it: vol_usages
        invariant
            usages == usages_of(it.seq()),
            model == |u: VolumeUsage| u@,
            labelled_model(labelled@, model) == usages_by_secret(usages.take(it.index() as int)),
    {
        let ghost before = labelled@;
        let name = s.secret_name.clone();
        labelled.push((name, s));
        assert(labelled_model(labelled@, model) =~= labelled_model(before, model).push(
            (s.secret_name@, s@),
        ));
        assert(usages_by_secret(usages.take(it.index() + 1)) =~= usages_by_secret(
            usages.take(it.index() as int),
        ).push((s.secret_name@, s@)));
    }
    assert(usages.take(usages.len() as int) =~= usages);
    group_by_name::<VolumeUsage, Usage>(labelled, Ghost(model))
}

/// The name of every secret that the given mappings refer to: as a whole,
/// then by key, then as a volume.
pub open spec fn secret_names_of(mappings: Seq<Seq<Entry>>) -> Seq<Seq<char>> {
    secret_refs_of(mappings) + secret_key_refs_of(mappings).map_values(|r: KeyRef| r.name)
        + volume_secrets_of(mappings).map_values(|v: Volume| v.secret_name)
}

/// The name of every secret that `corpus` refers to in any way, each once.
pub fn referenced_k8s_secret_names(corpus: &Corpus) -> (names: Vec<String>)
    ensures
        texts_of(names@) == first_seen(secret_names_of(corpus.mappings())),
{
    let secret_refs = find_secret_refs(corpus);
    let secret_key_refs = find_secret_key_refs(corpus);
    let vol_refs = find_vol_secrets(corpus);
    let ghost whole = names_of(secret_refs@);
    let ghost by_key = key_refs_of(secret_key_refs@).map_values(|r: KeyRef| r.name);
    let ghost mounted = volumes_of(vol_refs@).map_values(|v: Volume| v.secret_name);
    let mut res: Vec<String> = Vec::new();
    for r in it: secret_refs
        invariant
            whole == names_of(it.seq()),
            texts_of(res@) == whole.take(it.index() as int),
    {
        let ghost before = res@;
        res.push(r.0);
        assert(texts_of(res@) =~= texts_of(before).push(r.0@));
        assert(whole.take(it.index() + 1) =~= whole.take(it.index() as int).push(r@));
    }
    assert(whole.take(whole.len() as int) =~= whole);
    for r in it: secret_key_refs
        invariant
            by_key == key_refs_of(it.seq()).map_values(|r: KeyRef| r.name),
            texts_of(res@) == whole + by_key.take(it.index() as int),
    {
        let ghost before = res@;
        res.push(r.name);
        assert(texts_of(res@) =~= texts_of(before).push(r.name@));
        assert(by_key.take(it.index() + 1) =~= by_key.take(it.index() as int).push(r.name@));
    }
    assert(by_key.take(by_key.len() as int) =~= by_key);
    for r in it: vol_refs
        invariant
            mounted == volumes_of(it.seq()).map_values(|v: Volume| v.secret_name),
            texts_of(res@) == whole + by_key + mounted.take(it.index() as int),
    {
        let ghost before = res@;
        res.push(r.secret_name);
        assert(texts_of(res@) =~= texts_of(before).push(r.secret_name@));
        assert(mounted.take(it.index() + 1) =~= mounted.take(it.index() as int).push(
            r.secret_name@,
        ));
    }
    assert(mounted.take(mounted.len() as int) =~= mounted);
    distinct(res)
}

/// A mapping shaped as a reference to the key `key` of the secret `name`.
pub open spec fn key_ref_shape(name: Seq<char>, key: Seq<char>) -> Seq<Entry> {
    seq![
        Entry {
            key: Tree::String("secretKeyRef"@),
            value: Tree::Mapping(
                seq![
                    Entry { key: Tree::String("name"@), value: Tree::String(name) },
                    Entry { key: Tree::String("key"@), value: Tree::String(key) },
                ],
            ),
        },
    ]
}

/// A mapping shaped as a reference to a key of a secret is recognised as
/// the reference to that key of that secret.
pub proof fn lemma_key_ref_round_trip(name: Seq<char>, key: Seq<char>)
    ensures
        secret_key_ref_in(key_ref_shape(name, key)) == Some(KeyRef { name, key }),
{
    reveal_strlit("name");
    reveal_strlit("key");
    reveal_with_fuel(lookup, 3);
    let inner = seq![
        Entry { key: Tree::String("name"@), value: Tree::String(name) },
        Entry { key: Tree::String("key"@), value: Tree::String(key) },
    ];
    assert("name"@.len() != "key"@.len());
    assert(inner.drop_first()[0] == inner[1]);
    assert(lookup(inner, "name"@) == Some(Tree::String(name)));
    assert(lookup(inner, "key"@) == Some(Tree::String(key)));
}

/// Two references to different keys of one secret are gathered in one
/// group, the key that was seen first standing first.
pub proof fn lemma_keys_of_one_secret(name: Seq<char>, first: Seq<char>, second: Seq<char>)
    ensures
        grouped(
            keys_by_secret(seq![KeyRef { name, key: first }, KeyRef { name, key: second }]),
        ) == seq![(name, seq![first, second])],
{
    let one = seq![(name, first)];
    let refs = seq![KeyRef { name, key: first }, KeyRef { name, key: second }];
    assert(keys_by_secret(refs) =~= one.push((name, second)));
    assert(one =~= Seq::<(Seq<char>, Seq<char>)>::empty().push((name, first)));
    crate::groups::lemma_grouped_push(Seq::<(Seq<char>, Seq<char>)>::empty(), name, first);
    assert(crate::groups::labels(Seq::<(Seq<char>, Seq<char>)>::empty()) =~= Seq::<
        Seq<char>,
    >::empty());
    assert(grouped(Seq::<(Seq<char>, Seq<char>)>::empty()) =~= Seq::<
        (Seq<char>, Seq<Seq<char>>),
    >::empty());
    assert(grouped(one) =~= seq![(name, seq![first])]);
    crate::groups::lemma_grouped_push(one, name, second);
    assert(crate::groups::labels(one)[0] == name);
    assert(seq![first].push(second) =~= seq![first, second]);
    assert(grouped(one.push((name, second))) =~= seq![(name, seq![first, second])]);
}

/// Where `secretKeyRef` holds anything but a mapping, no reference to a key
/// is recognised.
pub proof fn lemma_scalar_is_no_key_ref(mapping: Seq<Entry>)
    requires
        !(lookup(mapping, "secretKeyRef"@) matches Some(Tree::Mapping(_))),
    ensures
        secret_key_ref_in(mapping) is None,
{
}

/// A container without a `name` is known by its `image`.
pub proof fn lemma_image_names_container(container: Seq<Entry>)
    requires
        lookup(container, "name"@) is None,
    ensures
        container_name(container) == str_at(container, "image"@),
{
}

/// Each container of a list is judged by itself: the records of a list are
/// the records of its front part followed by those of its back part,
/// whatever the shape of any item. An item that gives no record takes none
/// away.
pub proof fn lemma_containers_are_judged_alone(front: Seq<Tree>, back: Seq<Tree>, volume: Volume)
    ensures
        (front + back).filter_map(|container: Tree| usage_by(container, volume))
            == front.filter_map(|container: Tree| usage_by(container, volume)) + back.filter_map(
            |container: Tree| usage_by(container, volume),
        ),
{
    lemma_filter_map_concat(front, back, |container: Tree| usage_by(container, volume));
}

/// A text that holds a mount path and something below it mentions that
/// path.
pub proof fn lemma_path_below_is_mentioned(
    paths: Seq<Seq<char>>,
    k: int,
    before: Seq<char>,
    after: Seq<char>,
)
    requires
        0 <= k < paths.len(),
    ensures
        mentions(before + below(paths[k]) + after, paths),
{
    let text = before + below(paths[k]) + after;
    assert(text.subrange(
        before.len() as int,
        (before.len() + below(paths[k]).len()) as int,
    ) =~= below(paths[k]));
    assert(occurs_at(text, below(paths[k]), before.len() as int));
}

/// A mount path alone does not mention itself: nothing stands below it.
pub proof fn lemma_bare_path_is_not_mentioned(path: Seq<char>)
    ensures
        !mentions(path, seq![path]),
        usage_in(Tree::String(path), seq![path]) is None,
{
    assert forall|k: int| 0 <= k < seq![path].len() implies !contains_text(
        path,
        below(#[trigger] seq![path][k]),
    ) by {
        assert(below(path).len() == path.len() + 1);
    }
}

} // verus!
