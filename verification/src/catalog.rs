//! The catalog: one immutable generation of every hosted plugin, with a
//! flat, densely indexed table of all served byte blobs. Indices are
//! assigned deterministically: per plugin in catalog order, declared files
//! first, then packaged bundle archives (already merged into the plugin's
//! file list), then metadata images, then the changelog. A download handle
//! on the wire carries the generation in its upper half and the table slot
//! in its lower half, so a handle from a superseded generation is rejected
//! rather than silently served from the wrong table.

use vstd::prelude::*;
use vstd::arithmetic::div_mod::lemma_fundamental_div_mod;
use vstd::string::StrSliceExecFns;
use crate::location::InstallLocation;
use crate::manifest::Plugin;
use crate::version::{
    lemma_version_order_antisym, lemma_version_order_trans, version_le, version_lt, Version,
};

verus! {

/// One table slot for each unit of generation tag in a download handle.
pub const GENERATION_BASE: u64 = 0x1_0000_0000;

/// One served file of a catalog entry: where it installs, how many bytes it
/// holds, and its slot in the generation's flat table.
pub struct FileDescriptor {
    pub install_location: InstallLocation,
    pub size: usize,
    pub slot: usize,
}

/// A catalog entry's metadata summary: display strings and the table slots
/// of its images and changelog.
pub struct MetadataSummary {
    pub name: Option<String>,
    pub description: Option<String>,
    pub images_slot: usize,
    pub image_count: usize,
    pub changelog_slot: usize,
}

/// One hosted plugin inside a catalog generation.
pub struct CatalogEntry {
    pub name: String,
    pub version: Version,
    pub beta: bool,
    pub files: Vec<FileDescriptor>,
    pub metadata: MetadataSummary,
}

/// One immutable catalog generation.
pub struct Catalog {
    pub generation: u32,
    pub entries: Vec<CatalogEntry>,
    pub table: Vec<Vec<u8>>,
}

/// The catalog would need more table slots than a download handle can
/// address.
#[derive(Debug)]
pub struct CatalogOverflow;

/// The byte sequences of a table.
pub open spec fn blob_views(t: Seq<Vec<u8>>) -> Seq<Seq<u8>> {
    t.map_values(|b: Vec<u8>| b@)
}

/// Appending a blob to a table appends its bytes to the table's view.
proof fn lemma_blob_views_push(t: Seq<Vec<u8>>, d: Vec<u8>, rhs: Seq<Seq<u8>>)
    requires
        blob_views(t) == rhs,
    ensures
        blob_views(t.push(d)) == rhs.push(d@),
{
    assert(blob_views(t.push(d)) =~= rhs.push(d@));
}

/// How many metadata images a plugin serves.
pub open spec fn image_count_of(p: Plugin) -> int {
    match p.metadata.images {
        Some(v) => v@.len() as int,
        None => 0,
    }
}

/// Whether a plugin serves a changelog blob.
pub open spec fn changelog_count_of(p: Plugin) -> int {
    if p.metadata.changelog is Some {
        1
    } else {
        0
    }
}

/// How many table slots one plugin occupies.
pub open spec fn plugin_blob_count(p: Plugin) -> int {
    p.files@.len() + image_count_of(p) + changelog_count_of(p)
}

/// The image blobs a plugin serves, in declaration order.
pub open spec fn image_blobs(p: Plugin) -> Seq<Seq<u8>> {
    match p.metadata.images {
        Some(v) => v@.map_values(|b: Vec<u8>| b@),
        None => Seq::empty(),
    }
}

/// The changelog blob a plugin serves: the text's bytes, where one exists.
pub open spec fn changelog_blobs(p: Plugin) -> Seq<Seq<u8>> {
    match p.metadata.changelog {
        Some(s) => seq![vstd::utf8::encode_utf8(s@)],
        None => Seq::empty(),
    }
}

/// Every blob one plugin serves: its files, then its metadata images, then
/// its changelog.
pub open spec fn plugin_blobs(p: Plugin) -> Seq<Seq<u8>> {
    p.files@.map_values(|f: (InstallLocation, Vec<u8>)| f.1@) + image_blobs(p) + changelog_blobs(p)
}

/// The flat table of every plugin's blobs, in catalog order.
pub open spec fn flat_blobs(ps: Seq<Plugin>) -> Seq<Seq<u8>>
    decreases ps.len(),
{
    if ps.len() == 0 {
        Seq::empty()
    } else {
        flat_blobs(ps.drop_last()) + plugin_blobs(ps.last())
    }
}

/// The first table slot of plugin `i`: the slots of all plugins before it.
pub open spec fn slot_base(ps: Seq<Plugin>, i: int) -> int
    decreases i,
{
    if i <= 0 {
        0
    } else {
        slot_base(ps, i - 1) + plugin_blob_count(ps[i - 1])
    }
}

/// The catalog entry `e` presents plugin `p`, whose first table slot is
/// `base`: same name, version and beta flag; one descriptor per served
/// file, consecutive from `base`, sized by its blob; then the image slots
/// and the changelog slot.
pub open spec fn entry_matches(e: CatalogEntry, p: Plugin, base: int) -> bool {
    &&& e.name == p.name
    &&& e.version == p.plugin_version
    &&& e.beta == p.beta
    &&& e.files@.len() == p.files@.len()
    &&& forall|k: int|
        0 <= k < p.files@.len() ==> {
            &&& (#[trigger] e.files@[k]).install_location == p.files@[k].0
            &&& e.files@[k].size == p.files@[k].1@.len()
            &&& e.files@[k].slot == base + k
        }
    &&& e.metadata.name == p.metadata.name
    &&& e.metadata.description == p.metadata.description
    &&& e.metadata.images_slot == base + p.files@.len()
    &&& e.metadata.image_count == image_count_of(p)
    &&& e.metadata.changelog_slot == base + p.files@.len() + image_count_of(p)
}

/// The catalog `c` is the generation `generation` built from the loaded
/// plugins `ps`: one entry per plugin in order, and the flat table of all
/// their blobs, slots assigned deterministically.
pub open spec fn catalog_built_from(c: Catalog, ps: Seq<Plugin>, generation: u32) -> bool {
    &&& c.generation == generation
    &&& c.entries@.len() == ps.len()
    &&& forall|i: int|
        0 <= i < ps.len() ==> entry_matches(#[trigger] c.entries@[i], ps[i], slot_base(ps, i))
    &&& blob_views(c.table@) == flat_blobs(ps)
}

impl Catalog {
    /// Every slot a catalog entry names lies within the table (the image
    /// and changelog slots may sit at its very end, where the entry serves
    /// none), every declared size is its blob's length, and every slot fits
    /// in a download handle.
    pub open spec fn wf(self) -> bool {
        &&& self.table@.len() <= u32::MAX
        &&& forall|i: int, k: int|
            0 <= i < self.entries@.len() && 0 <= k < self.entries@[i].files@.len() ==> {
                &&& (#[trigger] self.entries@[i].files@[k]).slot < self.table@.len()
                &&& self.entries@[i].files@[k].size == self.table@[self.entries@[i].files@[
                    k
                ].slot as int]@.len()
            }
        &&& forall|i: int|
            0 <= i < self.entries@.len() ==> {
                &&& (#[trigger] self.entries@[i]).metadata.images_slot <= self.table@.len()
                &&& self.entries@[i].metadata.changelog_slot <= self.table@.len()
            }
    }
}

/// Two sequences that agree below `i` have the same slot bases up to `i`.
proof fn lemma_slot_base_agree(ps: Seq<Plugin>, qs: Seq<Plugin>, i: int)
    requires
        0 <= i <= ps.len(),
        i <= qs.len(),
        forall|j: int| 0 <= j < i ==> ps[j] == qs[j],
    ensures
        slot_base(ps, i) == slot_base(qs, i),
    decreases i,
{
    if i > 0 {
        lemma_slot_base_agree(ps, qs, i - 1);
    }
}

/// The flat table is as long as the slots say.
proof fn lemma_flat_len(ps: Seq<Plugin>)
    ensures
        flat_blobs(ps).len() == slot_base(ps, ps.len() as int),
    decreases ps.len(),
{
    if ps.len() > 0 {
        lemma_flat_len(ps.drop_last());
        lemma_slot_base_agree(ps.drop_last(), ps, ps.len() - 1);
    }
}

/// Slot bases grow with the index.
proof fn lemma_slot_base_mono(ps: Seq<Plugin>, i: int, j: int)
    requires
        0 <= i <= j <= ps.len(),
    ensures
        slot_base(ps, i) <= slot_base(ps, j),
    decreases j - i,
{
    if i < j {
        lemma_slot_base_mono(ps, i, j - 1);
    }
}

/// Blob `j` of plugin `i` stands in the flat table at its assigned slot.
proof fn lemma_flat_index(ps: Seq<Plugin>, i: int, j: int)
    requires
        0 <= i < ps.len(),
        0 <= j < plugin_blob_count(ps[i]),
    ensures
        0 <= slot_base(ps, i) + j < flat_blobs(ps).len(),
        flat_blobs(ps)[slot_base(ps, i) + j] == plugin_blobs(ps[i])[j],
    decreases ps.len(),
{
    lemma_flat_len(ps);
    lemma_slot_base_mono(ps, 0, i);
    lemma_slot_base_mono(ps, i + 1, ps.len() as int);
    if i == ps.len() - 1 {
        lemma_flat_len(ps.drop_last());
        lemma_slot_base_agree(ps.drop_last(), ps, i);
    } else {
        lemma_flat_index(ps.drop_last(), i, j);
        lemma_slot_base_agree(ps.drop_last(), ps, i);
        lemma_flat_len(ps.drop_last());
        lemma_slot_base_mono(ps.drop_last(), i + 1, ps.len() - 1);
    }
}

/// In a built catalog every file descriptor's slot is in bounds and its
/// size is the length of the blob at that slot.
pub proof fn lemma_built_catalog_sizes(c: Catalog, ps: Seq<Plugin>, generation: u32)
    requires
        catalog_built_from(c, ps, generation),
    ensures
        forall|i: int, k: int|
            0 <= i < c.entries@.len() && 0 <= k < c.entries@[i].files@.len() ==> {
                &&& (#[trigger] c.entries@[i].files@[k]).slot < c.table@.len()
                &&& c.table@[c.entries@[i].files@[k].slot as int]@ == ps[i].files@[k].1@
                &&& c.entries@[i].files@[k].size == c.table@[c.entries@[i].files@[k].slot as int]@.len()
            },
{
    assert forall|i: int, k: int|
        0 <= i < c.entries@.len() && 0 <= k < c.entries@[i].files@.len() implies {
        &&& (#[trigger] c.entries@[i].files@[k]).slot < c.table@.len()
        &&& c.table@[c.entries@[i].files@[k].slot as int]@ == ps[i].files@[k].1@
        &&& c.entries@[i].files@[k].size == c.table@[c.entries@[i].files@[k].slot as int]@.len()
    } by {
        lemma_flat_index(ps, i, k);
        assert(plugin_blobs(ps[i])[k] == ps[i].files@[k].1@);
        assert(blob_views(c.table@)[slot_base(ps, i) + k] == c.table@[slot_base(ps, i) + k]@);
    }
}

/// A built catalog that fits its handles is well formed.
pub proof fn lemma_built_catalog_wf(c: Catalog, ps: Seq<Plugin>, generation: u32)
    requires
        catalog_built_from(c, ps, generation),
        c.table@.len() <= u32::MAX,
    ensures
        c.wf(),
{
    lemma_built_catalog_sizes(c, ps, generation);
    lemma_flat_len(ps);
    assert forall|i: int| 0 <= i < c.entries@.len() implies {
        &&& (#[trigger] c.entries@[i]).metadata.images_slot <= c.table@.len()
        &&& c.entries@[i].metadata.changelog_slot <= c.table@.len()
    } by {
        assert(entry_matches(c.entries@[i], ps[i], slot_base(ps, i)));
        lemma_slot_base_mono(ps, i + 1, ps.len() as int);
    }
}

/// Rebuilding from an unchanged plugin list yields the same entries, the
/// same slot assignment and the same table contents, whatever the two
/// generation numbers are.
pub proof fn lemma_build_deterministic(c1: Catalog, c2: Catalog, ps: Seq<Plugin>, g1: u32, g2: u32)
    requires
        catalog_built_from(c1, ps, g1),
        catalog_built_from(c2, ps, g2),
    ensures
        c1.entries@.len() == c2.entries@.len(),
        blob_views(c1.table@) == blob_views(c2.table@),
        forall|i: int|
            0 <= i < c1.entries@.len() ==> {
                &&& (#[trigger] c1.entries@[i]).name == c2.entries@[i].name
                &&& c1.entries@[i].version == c2.entries@[i].version
                &&& c1.entries@[i].beta == c2.entries@[i].beta
                &&& c1.entries@[i].files@ == c2.entries@[i].files@
                &&& c1.entries@[i].metadata.images_slot == c2.entries@[i].metadata.images_slot
                &&& c1.entries@[i].metadata.image_count == c2.entries@[i].metadata.image_count
                &&& c1.entries@[i].metadata.changelog_slot == c2.entries@[i].metadata.changelog_slot
            },
{
    assert forall|i: int| 0 <= i < c1.entries@.len() implies {
        &&& (#[trigger] c1.entries@[i]).name == c2.entries@[i].name
        &&& c1.entries@[i].version == c2.entries@[i].version
        &&& c1.entries@[i].beta == c2.entries@[i].beta
        &&& c1.entries@[i].files@ == c2.entries@[i].files@
        &&& c1.entries@[i].metadata.images_slot == c2.entries@[i].metadata.images_slot
        &&& c1.entries@[i].metadata.image_count == c2.entries@[i].metadata.image_count
        &&& c1.entries@[i].metadata.changelog_slot == c2.entries@[i].metadata.changelog_slot
    } by {
        assert(entry_matches(c1.entries@[i], ps[i], slot_base(ps, i)));
        assert(entry_matches(c2.entries@[i], ps[i], slot_base(ps, i)));
        assert(c1.entries@[i].files@ =~= c2.entries@[i].files@);
    }
}

/// Move one plugin's blobs to the end of the table and describe them.
fn push_plugin(table: &mut Vec<Vec<u8>>, p: Plugin) -> (e: CatalogEntry)
    ensures
        final(table)@.len() == old(table)@.len() + plugin_blob_count(p),
        blob_views(final(table)@) == blob_views(old(table)@) + plugin_blobs(p),
        entry_matches(e, p, old(table)@.len() as int),
{
    let ghost t0 = table@;
    let ghost gfiles = p.files@;
    let ghost gfileblobs = p.files@.map_values(|f: (InstallLocation, Vec<u8>)| f.1@);
    let ghost gimages = image_blobs(p);
    let ghost gchangelog = changelog_blobs(p);
    let base = table.len();
    let Plugin { name, plugin_version, files, skyline_version: _, beta, metadata } = p;

    let mut fds: Vec<FileDescriptor> = Vec::new();
    let mut fl = files;
    while fl.len() > 0
        invariant
            fds@.len() + fl@.len() == gfiles.len(),
            fl@ == gfiles.skip(fds@.len() as int),
            table@.len() == t0.len() + fds@.len(),
            gfileblobs == gfiles.map_values(|f: (InstallLocation, Vec<u8>)| f.1@),
            blob_views(table@) =~= blob_views(t0) + gfileblobs.take(fds@.len() as int),
            forall|m: int|
                0 <= m < fds@.len() ==> {
                    &&& (#[trigger] fds@[m]).install_location == gfiles[m].0
                    &&& fds@[m].size == gfiles[m].1@.len()
                    &&& fds@[m].slot == t0.len() + m
                },
        decreases fl@.len(),
    {
        let ghost k = fds@.len() as int;
        let ghost pre = fl@;
        let pair = fl.remove(0);
        proof {
            assert(pre.remove(0) =~= pre.drop_first());
            assert(gfiles.skip(k).drop_first() =~= gfiles.skip(k + 1));
            assert(pair == gfiles[k]);
        }
        let (loc, data) = pair;
        fds.push(FileDescriptor { install_location: loc, size: data.len(), slot: table.len() });
        let ghost tpre = table@;
        let ghost gdata = data;
        table.push(data);
        proof {
            lemma_blob_views_push(tpre, gdata, blob_views(t0) + gfileblobs.take(k));
            assert(table@ == tpre.push(gdata));
            assert((blob_views(t0) + gfileblobs.take(k)).push(gdata@) =~= blob_views(t0)
                + gfileblobs.take(k + 1));
        }
    }
    proof {
        assert(gfileblobs.take(gfileblobs.len() as int) =~= gfileblobs);
    }

    let images_slot = table.len();
    let image_count: usize;
    match metadata.images {
        Some(imgs) => {
            let ghost gi = imgs@;
            proof {
                assert(gimages =~= gi.map_values(|b: Vec<u8>| b@));
            }
            image_count = imgs.len();
            let mut im = imgs;
            while im.len() > 0
                invariant
                    im@.len() <= gi.len(),
                    im@ == gi.skip(gi.len() - im@.len()),
                    gimages == gi.map_values(|b: Vec<u8>| b@),
                    table@.len() + im@.len() == t0.len() + gfiles.len() + gi.len(),
                    blob_views(table@) =~= blob_views(t0) + gfileblobs + gimages.take(
                        gi.len() - im@.len(),
                    ),
                decreases im@.len(),
            {
                let ghost pre = im@;
                let ghost done = gi.len() - pre.len();
                let img = im.remove(0);
                proof {
                    assert(pre.remove(0) =~= pre.drop_first());
                    assert(gi.skip(done).drop_first() =~= gi.skip(done + 1));
                    assert(img == gi[done]);
                    assert(gimages[done] == gi[done]@);
                }
                let ghost tpre = table@;
                let ghost gimg = img;
                table.push(img);
                proof {
                    lemma_blob_views_push(
                        tpre,
                        gimg,
                        blob_views(t0) + gfileblobs + gimages.take(done),
                    );
                    assert(table@ == tpre.push(gimg));
                    assert((blob_views(t0) + gfileblobs + gimages.take(done)).push(gimg@)
                        =~= blob_views(t0) + gfileblobs + gimages.take(done + 1));
                }
            }
            proof {
                assert(gimages.take(gimages.len() as int) =~= gimages);
            }
        },
        None => {
            image_count = 0;
            proof {
                assert(gimages =~= Seq::<Seq<u8>>::empty());
                assert(blob_views(table@) =~= blob_views(t0) + gfileblobs + gimages);
            }
        },
    }

    let changelog_slot = table.len();
    match &metadata.changelog {
        Some(s) => {
            let bytes = s.as_str().as_bytes_vec();
            let ghost tpre = table@;
            let ghost gbytes = bytes;
            table.push(bytes);
            proof {
                assert(gchangelog =~= seq![vstd::utf8::encode_utf8(s@)]);
                lemma_blob_views_push(tpre, gbytes, blob_views(t0) + gfileblobs + gimages);
                assert(table@ == tpre.push(gbytes));
            }
        },
        None => {
            proof {
                assert(gchangelog =~= Seq::<Seq<u8>>::empty());
            }
        },
    }
    proof {
        assert(plugin_blobs(p) == gfileblobs + gimages + gchangelog);
        assert(blob_views(table@) =~= blob_views(t0) + plugin_blobs(p));
    }

    let summary = MetadataSummary {
        name: metadata.name,
        description: metadata.description,
        images_slot,
        image_count,
        changelog_slot,
    };
    CatalogEntry { name, version: plugin_version, beta, files: fds, metadata: summary }
}

/// Build one catalog generation from the loaded plugins, assigning every
/// blob its table slot in the deterministic order. Fails only where the
/// table would outgrow what a download handle can address.
pub fn build_catalog(plugins: Vec<Plugin>, generation: u32) -> (r: Result<Catalog, CatalogOverflow>)
    ensures
        r matches Ok(c) ==> catalog_built_from(c, plugins@, generation) && c.table@.len()
            <= u32::MAX && c.wf(),
        r is Ok <==> flat_blobs(plugins@).len() <= u32::MAX,
{
    let ghost ps0 = plugins@;
    let mut rest = plugins;
    let mut entries: Vec<CatalogEntry> = Vec::new();
    let mut table: Vec<Vec<u8>> = Vec::new();
    let mut overflow = false;
    while rest.len() > 0 && !overflow
        invariant
            entries@.len() + rest@.len() == ps0.len(),
            rest@ == ps0.skip(entries@.len() as int),
            table@.len() == slot_base(ps0, entries@.len() as int),
            !overflow ==> table@.len() <= u32::MAX,
            overflow ==> table@.len() > u32::MAX,
            blob_views(table@) =~= flat_blobs(ps0.take(entries@.len() as int)),
            forall|j: int|
                0 <= j < entries@.len() ==> entry_matches(
                    #[trigger] entries@[j],
                    ps0[j],
                    slot_base(ps0, j),
                ),
        decreases rest@.len(),
    {
        let ghost i = entries@.len() as int;
        let ghost pre = rest@;
        let p = rest.remove(0);
        proof {
            assert(pre.remove(0) =~= pre.drop_first());
            assert(ps0.skip(i).drop_first() =~= ps0.skip(i + 1));
            assert(p == ps0[i]);
        }
        let e = push_plugin(&mut table, p);
        entries.push(e);
        proof {
            assert(ps0.take(i + 1).drop_last() =~= ps0.take(i));
            assert(ps0.take(i + 1).last() == ps0[i]);
            assert(flat_blobs(ps0.take(i + 1)) == flat_blobs(ps0.take(i)) + plugin_blobs(ps0[i]));
            assert(blob_views(table@) =~= flat_blobs(ps0.take(i + 1)));
        }
        if table.len() > u32::MAX as usize {
            overflow = true;
        }
    }
    if overflow {
        proof {
            let ghost done = entries@.len() as int;
            assert(blob_views(table@).len() == table@.len());
            lemma_flat_len(ps0.take(done));
            lemma_slot_base_agree(ps0.take(done), ps0, done);
            lemma_slot_base_mono(ps0, done, ps0.len() as int);
            lemma_flat_len(ps0);
        }
        return Err(CatalogOverflow);
    }
    proof {
        assert(ps0.take(ps0.len() as int) =~= ps0);
        lemma_flat_len(ps0);
    }
    let c = Catalog { generation, entries, table };
    proof {
        lemma_built_catalog_wf(c, ps0, generation);
    }
    Ok(c)
}

/// The entry answers a query for `name` with beta eligibility `beta`: the
/// names are equal, and a beta entry answers only a beta query.
pub open spec fn matches_query(e: CatalogEntry, name: Seq<char>, beta: bool) -> bool {
    e.name@ == name && (beta || !e.beta)
}

/// Entry `i` is the one a query resolves to: it answers the query, no
/// answering entry has a greater version, and of the answering entries
/// carrying the greatest version it is the last.
pub open spec fn is_selected(entries: Seq<CatalogEntry>, name: Seq<char>, beta: bool, i: int) -> bool {
    &&& 0 <= i < entries.len()
    &&& matches_query(entries[i], name, beta)
    &&& forall|j: int|
        0 <= j < entries.len() && matches_query(#[trigger] entries[j], name, beta) ==> version_le(
            entries[j].version,
            entries[i].version,
        )
    &&& forall|j: int|
        i < j < entries.len() && matches_query(#[trigger] entries[j], name, beta) ==> version_lt(
            entries[j].version,
            entries[i].version,
        )
}

/// A query a non-beta client makes never resolves to a beta entry, even
/// where that entry is the only one, or the highest-versioned one, under
/// the queried name.
pub proof fn lemma_non_beta_never_selects_beta(
    entries: Seq<CatalogEntry>,
    name: Seq<char>,
    i: int,
)
    requires
        is_selected(entries, name, false, i),
    ensures
        !entries[i].beta,
{
}

/// At most one entry is the resolution of a query: selection is a function
/// of the catalog and the query.
pub proof fn lemma_selected_unique(
    entries: Seq<CatalogEntry>,
    name: Seq<char>,
    beta: bool,
    i1: int,
    i2: int,
)
    requires
        is_selected(entries, name, beta, i1),
        is_selected(entries, name, beta, i2),
    ensures
        i1 == i2,
{
    if i1 < i2 {
        assert(version_lt(entries[i2].version, entries[i1].version));
        assert(version_le(entries[i2].version, entries[i1].version)) by {
            lemma_version_order_antisym(entries[i2].version, entries[i1].version);
        }
        assert(version_le(entries[i1].version, entries[i2].version));
        lemma_version_order_antisym(entries[i2].version, entries[i1].version);
    } else if i2 < i1 {
        assert(version_lt(entries[i1].version, entries[i2].version));
        assert(version_le(entries[i2].version, entries[i1].version));
        lemma_version_order_antisym(entries[i1].version, entries[i2].version);
    }
}

/// Resolve a query to its catalog entry: among the entries that answer it,
/// one carrying the greatest version; `None` where no entry answers.
pub fn resolve(c: &Catalog, name: &String, beta: bool) -> (r: Option<usize>)
    ensures
        match r {
            Some(i) => is_selected(c.entries@, name@, beta, i as int),
            None => forall|j: int|
                0 <= j < c.entries@.len() ==> !matches_query(#[trigger] c.entries@[j], name@, beta),
        },
{
    let mut best: Option<usize> = None;
    let mut j: usize = 0;
    while j < c.entries.len()
        invariant
            j <= c.entries@.len(),
            match best {
                Some(b) => {
                    &&& b < j
                    &&& matches_query(c.entries@[b as int], name@, beta)
                    &&& forall|t: int|
                        0 <= t < j && matches_query(#[trigger] c.entries@[t], name@, beta)
                            ==> version_le(c.entries@[t].version, c.entries@[b as int].version)
                    &&& forall|t: int|
                        b < t < j && matches_query(#[trigger] c.entries@[t], name@, beta)
                            ==> version_lt(c.entries@[t].version, c.entries@[b as int].version)
                },
                None => forall|t: int|
                    0 <= t < j ==> !matches_query(#[trigger] c.entries@[t], name@, beta),
            },
        decreases c.entries@.len() - j,
    {
        let e = &c.entries[j];
        if e.name == *name && (beta || !e.beta) {
            match best {
                None => {
                    proof {
                        lemma_version_order_antisym(
                            c.entries@[j as int].version,
                            c.entries@[j as int].version,
                        );
                    }
                    best = Some(j);
                },
                Some(b) => {
                    if c.entries[b].version.le(&e.version) {
                        proof {
                            lemma_version_order_antisym(
                                c.entries@[j as int].version,
                                c.entries@[j as int].version,
                            );
                            assert forall|t: int|
                                0 <= t < j && matches_query(
                                    #[trigger] c.entries@[t],
                                    name@,
                                    beta,
                                ) implies version_le(
                                c.entries@[t].version,
                                c.entries@[j as int].version,
                            ) by {
                                lemma_version_order_trans(
                                    c.entries@[t].version,
                                    c.entries@[b as int].version,
                                    c.entries@[j as int].version,
                                );
                            }
                        }
                        best = Some(j);
                    } else {
                        proof {
                            lemma_version_order_antisym(
                                c.entries@[j as int].version,
                                c.entries@[b as int].version,
                            );
                        }
                    }
                },
            }
        }
        j += 1;
    }
    best
}

/// The generation half of a download handle.
pub open spec fn handle_generation(h: u64) -> int {
    h as int / GENERATION_BASE as int
}

/// The table-slot half of a download handle.
pub open spec fn handle_slot(h: u64) -> int {
    h as int % GENERATION_BASE as int
}

/// The download handle of table slot `slot` in generation `generation`.
pub fn compose_handle(generation: u32, slot: usize) -> (h: u64)
    requires
        slot <= u32::MAX,
    ensures
        handle_generation(h) == generation,
        handle_slot(h) == slot,
{
    let h = (generation as u64) * GENERATION_BASE + (slot as u64);
    proof {
        assert(handle_generation(h) == generation && handle_slot(h) == slot) by (nonlinear_arith)
            requires
                h == (generation as u64) * GENERATION_BASE + (slot as u64),
                slot <= u32::MAX,
                GENERATION_BASE == 0x1_0000_0000u64,
        ;
    }
    h
}

/// Handles of one generation address distinct table slots: no two distinct
/// handles reach the same blob of their generation.
pub proof fn lemma_distinct_handles_distinct_slots(h1: u64, h2: u64)
    requires
        h1 != h2,
        handle_generation(h1) == handle_generation(h2),
    ensures
        handle_slot(h1) != handle_slot(h2),
{
    lemma_fundamental_div_mod(h1 as int, GENERATION_BASE as int);
    lemma_fundamental_div_mod(h2 as int, GENERATION_BASE as int);
}

/// The blob a download handle addresses in this catalog: the handle must
/// carry the catalog's own generation and a slot inside the table; a stale
/// or out-of-range handle gets nothing.
pub fn lookup(c: &Catalog, handle: u64) -> (r: Option<&Vec<u8>>)
    ensures
        r is Some <==> (handle_generation(handle) == c.generation && handle_slot(handle)
            < c.table@.len()),
        r matches Some(b) ==> b@ == c.table@[handle_slot(handle)]@,
{
    let gen = handle / GENERATION_BASE;
    let slot = handle % GENERATION_BASE;
    if gen == (c.generation as u64) && slot < (c.table.len() as u64) {
        Some(&c.table[slot as usize])
    } else {
        None
    }
}

} // verus!
