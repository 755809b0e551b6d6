//! The manifest assembler: the image configuration that lists each layer's
//! digest, and the manifest that references that configuration and the
//! layers, both in the order in which the layers were packed.
use crate::digest::{digest_text, sha256_of, SHA256_MAX_INPUT};
use crate::hash_write::digest_of_bytes;
use crate::packer::Layer;
use vstd::prelude::*;

verus! {

/// The architecture that images are built for.
pub const ARCHITECTURE: &'static str = "amd64";

/// The operating system that images are built for.
pub const OS: &'static str = "linux";

/// The creation time written into every image configuration; pinned so
/// that equal layers give equal configuration bytes.
pub const CREATED: &'static str = "1970-01-01T00:00:01Z";

/// The kind of root filesystem descriptor.
pub const ROOTFS_TYPE: &'static str = "layers";

/// The media type of a manifest.
pub const MANIFEST_MEDIA_TYPE: &'static str = "application/vnd.docker.distribution.manifest.v2+json";

/// The media type of an image configuration blob.
pub const CONFIG_MEDIA_TYPE: &'static str = "application/vnd.docker.container.image.v1+json";

/// The image configuration: platform, creation time, and the layer digests.
pub struct RootFsConfig {
    pub architecture: String,
    pub created: String,
    pub os: String,
    pub rootfs_type: String,
    pub diff_ids: Vec<String>,
}

/// The reference from a manifest to its configuration blob.
pub struct ManifestConfig {
    pub media_type: String,
    pub size: usize,
    pub digest: String,
}

/// The top-level description of an image.
pub struct Manifest {
    pub schema_version: usize,
    pub media_type: String,
    pub config: ManifestConfig,
    pub layers: Vec<Layer>,
}

/// The digests of `layers`, in order.
pub open spec fn layer_digests(layers: Seq<Layer>) -> Seq<Seq<char>> {
    layers.map_values(|l: Layer| l.digest@)
}

/// The texts of `ids`, in order.
pub open spec fn texts(ids: Seq<String>) -> Seq<Seq<char>> {
    ids.map_values(|d: String| d@)
}

impl RootFsConfig {
    /// What `for_layers` gives for `layers`.
    pub open spec fn describes(&self, layers: Seq<Layer>) -> bool {
        &&& self.architecture@ == ARCHITECTURE@
        &&& self.created@ == CREATED@
        &&& self.os@ == OS@
        &&& self.rootfs_type@ == ROOTFS_TYPE@
        &&& texts(self.diff_ids@) == layer_digests(layers)
    }

    /// The configuration of an image made of `layers`, with their digests
    /// as diff ids in the same order.
    pub fn for_layers(layers: &Vec<Layer>) -> (r: RootFsConfig)
        ensures
            r.describes(layers@),
    {
        let mut diff_ids: Vec<String> = Vec::new();
        let mut i: usize = 0;
        while i < layers.len()
            invariant
                0 <= i <= layers@.len(),
                diff_ids@.len() == i,
                texts(diff_ids@) == layer_digests(layers@.subrange(0, i as int)),
            decreases layers@.len() - i,
        {
            let ghost before = diff_ids@;
            let d = layers[i].digest.clone();
            diff_ids.push(d);
            proof {
                let pre = layers@.subrange(0, i as int);
                let post = layers@.subrange(0, i as int + 1);
                assert forall|k: int| 0 <= k < post.len() implies texts(diff_ids@)[k]
                    == layer_digests(post)[k] by {
                    if k < i {
                        assert(diff_ids@[k] == before[k]);
                        assert(texts(before)[k] == layer_digests(pre)[k]);
                    }
                }
                assert(texts(diff_ids@) =~= layer_digests(post));
            }
            i = i + 1;
        }
        assert(layers@.subrange(0, layers@.len() as int) =~= layers@);
        RootFsConfig {
            architecture: String::from_str(ARCHITECTURE),
            created: String::from_str(CREATED),
            os: String::from_str(OS),
            rootfs_type: String::from_str(ROOTFS_TYPE),
            diff_ids,
        }
    }
}

impl Manifest {
    /// What `assemble` gives for `layers` and the configuration bytes `config_blob`.
    pub open spec fn is_assembled_from(&self, layers: Seq<Layer>, config_blob: Seq<u8>) -> bool {
        &&& self.schema_version == 2
        &&& self.media_type@ == MANIFEST_MEDIA_TYPE@
        &&& self.config.media_type@ == CONFIG_MEDIA_TYPE@
        &&& self.config.size as int == config_blob.len()
        &&& self.config.digest@ == digest_text(sha256_of(config_blob))
        &&& self.layers@ == layers
    }

    /// The manifest of an image made of `layers` whose serialised
    /// configuration is `config_blob`; the layers are kept as given.
    pub fn assemble(layers: Vec<Layer>, config_blob: &[u8]) -> (r: Manifest)
        requires
            config_blob@.len() <= SHA256_MAX_INPUT,
        ensures
            r.is_assembled_from(layers@, config_blob@),
    {
        Manifest {
            schema_version: 2,
            media_type: String::from_str(MANIFEST_MEDIA_TYPE),
            config: ManifestConfig {
                media_type: String::from_str(CONFIG_MEDIA_TYPE),
                size: config_blob.len(),
                digest: digest_of_bytes(config_blob),
            },
            layers,
        }
    }
}

/// The layers of a manifest are listed in the order of the diff ids of
/// the image configuration made from the same layers.
pub proof fn lemma_manifest_layer_order(
    layers: Seq<Layer>,
    config_blob: Seq<u8>,
    config: RootFsConfig,
    manifest: Manifest,
)
    requires
        config.describes(layers),
        manifest.is_assembled_from(layers, config_blob),
    ensures
        layer_digests(manifest.layers@) == texts(config.diff_ids@),
        manifest.layers@.len() == config.diff_ids@.len(),
{
    assert(texts(config.diff_ids@).len() == config.diff_ids@.len());
}

/// Equal layers and equal configuration bytes give equal manifests and
/// equal image configurations: the creation time is pinned, so nothing
/// else enters either.
pub proof fn lemma_assembly_reproducible(
    layers: Seq<Layer>,
    config_blob: Seq<u8>,
    c1: RootFsConfig,
    c2: RootFsConfig,
    m1: Manifest,
    m2: Manifest,
)
    requires
        c1.describes(layers),
        c2.describes(layers),
        m1.is_assembled_from(layers, config_blob),
        m2.is_assembled_from(layers, config_blob),
    ensures
        c1.architecture@ == c2.architecture@,
        c1.created@ == c2.created@,
        c1.os@ == c2.os@,
        c1.rootfs_type@ == c2.rootfs_type@,
        texts(c1.diff_ids@) == texts(c2.diff_ids@),
        m1.schema_version == m2.schema_version,
        m1.media_type@ == m2.media_type@,
        m1.config.media_type@ == m2.config.media_type@,
        m1.config.size == m2.config.size,
        m1.config.digest@ == m2.config.digest@,
        m1.layers@ == m2.layers@,
{
}

} // verus!
