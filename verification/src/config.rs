//! Product configuration and hardware info.

use vstd::prelude::*;

use crate::store::transit_data;
use crate::util;

verus! {

/// The products that the firmware is built for.
#[derive(Debug, Copy, Clone, PartialEq, Eq, Structural)]
pub enum Product {
    Virt1_1_1,
    Bln1_2512_1,
    Bln2_2512_1,
}

impl Product {
    /// The identifier of the product, as the server and the signed firmware know it.
    pub open spec fn ident(self) -> Seq<char> {
        match self {
            Product::Virt1_1_1 => "virt-1-1"@,
            Product::Bln1_2512_1 => "bln1-2512-1"@,
            Product::Bln2_2512_1 => "bln2-2512-1"@,
        }
    }

    pub fn as_str(&self) -> (s: &'static str)
        ensures
            s@ == self.ident(),
    {
        match self {
            Product::Virt1_1_1 => "virt-1-1",
            Product::Bln1_2512_1 => "bln1-2512-1",
            Product::Bln2_2512_1 => "bln2-2512-1",
        }
    }

    /// The name under which the product is sold.
    pub open spec fn model(self) -> Seq<char> {
        match self {
            Product::Virt1_1_1 => "Virtual"@,
            Product::Bln1_2512_1 => "Berlin Rapid Transit Lightmap"@,
            Product::Bln2_2512_1 => "Berlin Rapid Transit Lightmap XL"@,
        }
    }

    pub fn as_model_str(&self) -> (s: &'static str)
        ensures
            s@ == self.model(),
    {
        match self {
            Product::Virt1_1_1 => "Virtual",
            Product::Bln1_2512_1 => "Berlin Rapid Transit Lightmap",
            Product::Bln2_2512_1 => "Berlin Rapid Transit Lightmap XL",
        }
    }
}

#[derive(Debug, Copy, Clone, PartialEq, Eq, Structural)]
pub struct HardwareVersion {
    pub major: u32,
    pub minor: u32,
}

#[derive(Debug, Copy, Clone, PartialEq, Eq, Structural)]
pub struct FirmwareVersion {
    pub major: u32,
    pub minor: u32,
    pub patch: u32,
    pub beta: bool,
}

/// The part of a product's description that is made of whole numbers.
#[derive(Debug, Copy, Clone)]
pub struct ProductConfig {
    /// Data feed identifier to select the data source.
    pub data_feed: &'static str,
    /// Number of LEDs excluding the status LED.
    pub pixel_count: usize,
    /// Indices of a set of special pixels used for spinner and progress animations.
    pub pixel_indices_special: &'static [u16],
    /// K-D tree from coordinates (latitude at even depths, longitude at odd ones) to locations.
    pub loc_geo_kd_tree: &'static [LocGeoKdNode],
    /// Locations of the map and how they are joined.
    pub loc_pix_nodes: &'static [LocPixNode],
    pub min_delay_minutes: u32,
    pub max_delay_minutes: u32,
    pub min_speed_kmph: u32,
    pub max_speed_kmph: u32,
    /// Cosine of the latitude of the map's center, times 32768.
    pub cos_lat_q15: i16,
}

/// A node of the K-D tree.
#[derive(Debug, Copy, Clone)]
pub struct LocGeoKdNode {
    /// Index of the left child in the tree, `None` if there is none.
    pub left: Option<u16>,
    /// Index of the right child in the tree, `None` if there is none.
    pub right: Option<u16>,
    /// Index of the location that this node stands for.
    pub loc: u16,
}

/// A location of the map.
#[derive(Debug, Copy, Clone)]
pub struct LocPixNode {
    /// Latitude in degrees times 10^7.
    pub lat_e7: i32,
    /// Longitude in degrees times 10^7.
    pub lng_e7: i32,
    /// Bitmask of the transit modes that stop here, such as subway or light rail.
    pub modes: u8,
    /// Directed edges to the neighboring locations.
    pub edges: &'static [LocPixEdge],
}

/// A directed edge between two locations.
#[derive(Debug, Copy, Clone)]
pub struct LocPixEdge {
    /// Index of the destination location.
    pub to_loc: u16,
    /// Pixel index at the source location.
    pub from_pix: u16,
    /// Pixel index at the destination location.
    pub to_pix: u16,
    /// Track direction discriminator: four sets of four bits that encode the possible routing.
    pub dir: u16,
}

/// The product, its versions and its description.
#[derive(Debug, Copy, Clone)]
pub struct Config {
    pub product: Product,
    pub hw_version: HardwareVersion,
    pub fw_version: FirmwareVersion,
    pub cfg: ProductConfig,
}

/// A map on which routing is defined: the locations can be told apart from "none" in 16 bits,
/// every edge leads to a location of the map, and every edge has a direction.
pub open spec fn valid_map(nodes: Seq<LocPixNode>) -> bool {
    &&& nodes.len() <= 0xFFFF
    &&& forall|i: int, e: int|
        0 <= i < nodes.len() && 0 <= e < nodes[i].edges@.len() ==> {
            &&& (#[trigger] nodes[i].edges@[e]).to_loc < nodes.len()
            &&& nodes[i].edges@[e].dir != 0
        }
}

/// A map whose pixels are among the first `n`.
pub open spec fn valid_pixels(nodes: Seq<LocPixNode>, n: nat) -> bool {
    forall|i: int, e: int|
        0 <= i < nodes.len() && 0 <= e < nodes[i].edges@.len() ==> {
            &&& (#[trigger] nodes[i].edges@[e]).from_pix < n
            &&& nodes[i].edges@[e].to_pix < n
        }
}

/// A map on which trains can move at random: no location has more than ten edges, and no edge has
/// the direction that stands for none.
pub open spec fn valid_walk(nodes: Seq<LocPixNode>) -> bool {
    &&& forall|i: int| 0 <= i < nodes.len() ==> (#[trigger] nodes[i]).edges@.len() <= 10
    &&& forall|i: int, e: int|
        0 <= i < nodes.len() && 0 <= e < nodes[i].edges@.len() ==> (
        #[trigger] nodes[i].edges@[e]).dir != u16::MAX
}

impl ProductConfig {
    /// What holds of the description of a product: its map can be routed on, its tree covers the
    /// map, and all pixels that it speaks of are there.
    pub open spec fn wf(self) -> bool {
        &&& valid_map(self.loc_pix_nodes@)
        &&& valid_pixels(self.loc_pix_nodes@, self.pixel_count as nat)
        &&& self.pixel_count <= 0xFFFF
        &&& valid_walk(self.loc_pix_nodes@)
        &&& transit_data::valid_kd(
            self.loc_geo_kd_tree@,
            self.loc_pix_nodes@.len(),
            0,
            transit_data::KD_MAX_LEVELS as nat,
        )
        &&& forall|i: int|
            0 <= i < self.pixel_indices_special@.len() ==> (
            #[trigger] self.pixel_indices_special@[i]) < self.pixel_count
    }

    /// Whether the description of a product makes sense.
    pub fn is_valid(&self) -> (r: bool)
        ensures
            r == self.wf(),
    {
        self.pixel_count <= 0xFFFF && check_map(self.loc_pix_nodes, self.pixel_count) && check_kd(
            self.loc_geo_kd_tree,
            self.loc_pix_nodes.len(),
            0,
            transit_data::KD_MAX_LEVELS,
        ) && check_special(self.pixel_indices_special, self.pixel_count)
    }
}

fn check_map(nodes: &[LocPixNode], pixel_count: usize) -> (r: bool)
    ensures
        r == (valid_map(nodes@) && valid_pixels(nodes@, pixel_count as nat) && valid_walk(nodes@)),
{
    if nodes.len() > 0xFFFF {
        return false;
    }
    let mut i: usize = 0;
    while i < nodes.len()
        invariant
            i <= nodes@.len() <= 0xFFFF,
            forall|j: int, e: int|
                0 <= j < i && 0 <= e < nodes@[j].edges@.len() ==> {
                    &&& (#[trigger] nodes@[j].edges@[e]).to_loc < nodes@.len()
                    &&& nodes@[j].edges@[e].dir != 0
                    &&& nodes@[j].edges@[e].dir != u16::MAX
                    &&& nodes@[j].edges@[e].from_pix < pixel_count
                    &&& nodes@[j].edges@[e].to_pix < pixel_count
                },
            forall|j: int| 0 <= j < i ==> (#[trigger] nodes@[j]).edges@.len() <= 10,
        decreases nodes@.len() - i,
    {
        let edges = nodes[i].edges;
        if edges.len() > 10 {
            assert(nodes@[i as int].edges@.len() > 10);
            return false;
        }
        let mut k: usize = 0;
        while k < edges.len()
            invariant
                k <= edges@.len(),
                i < nodes@.len() <= 0xFFFF,
                edges@ == nodes@[i as int].edges@,
                forall|e: int|
                    0 <= e < k ==> {
                        &&& (#[trigger] edges@[e]).to_loc < nodes@.len()
                        &&& edges@[e].dir != 0
                        &&& edges@[e].dir != u16::MAX
                        &&& edges@[e].from_pix < pixel_count
                        &&& edges@[e].to_pix < pixel_count
                    },
            decreases edges@.len() - k,
        {
            let edge = &edges[k];
            if edge.to_loc as usize >= nodes.len() || edge.dir == 0 || edge.dir == u16::MAX
                || edge.from_pix as usize >= pixel_count || edge.to_pix as usize >= pixel_count {
                assert(nodes@[i as int].edges@[k as int] == *edge);
                return false;
            }
            k = k + 1;
        }
        i = i + 1;
    }
    true
}

fn check_kd(tree: &[LocGeoKdNode], locs: usize, idx: usize, levels: usize) -> (r: bool)
    ensures
        r == transit_data::valid_kd(tree@, locs as nat, idx as int, levels as nat),
    decreases levels,
{
    if levels == 0 || idx >= tree.len() || tree[idx].loc as usize >= locs {
        return false;
    }
    let left = match tree[idx].left {
        Some(child) => check_kd(tree, locs, child as usize, levels - 1),
        None => true,
    };
    let right = match tree[idx].right {
        Some(child) => check_kd(tree, locs, child as usize, levels - 1),
        None => true,
    };
    left && right
}

fn check_special(pixels: &[u16], pixel_count: usize) -> (r: bool)
    ensures
        r == forall|i: int| 0 <= i < pixels@.len() ==> (#[trigger] pixels@[i]) < pixel_count,
{
    let mut i: usize = 0;
    while i < pixels.len()
        invariant
            i <= pixels@.len(),
            forall|j: int| 0 <= j < i ==> (#[trigger] pixels@[j]) < pixel_count,
        decreases pixels@.len() - i,
    {
        if pixels[i] as usize >= pixel_count {
            assert(pixels@[i as int] >= pixel_count);
            return false;
        }
        i = i + 1;
    }
    true
}

/// Checks that the firmware is built for hardware. The virtual product is not.
pub fn init(config: &Config)
    requires
        config.product != Product::Virt1_1_1,
    ensures
        config.product.ident() == "bln1-2512-1"@ || config.product.ident() == "bln2-2512-1"@,
{
}

/// The number of the device, in hexadecimal digits.
pub open spec fn hex_string(bytes: Seq<u8>) -> Seq<char>
    decreases bytes.len(),
{
    if bytes.len() == 0 {
        Seq::empty()
    } else {
        hex_string(bytes.drop_last()) + util::hex_lower(bytes.last())
    }
}

/// The number of the device as text.
pub fn get_hardware_id_str(unique_id: &[u8; 16]) -> (s: String)
    ensures
        s@ == hex_string(unique_id@),
        s@.len() == 32,
{
    let mut s = String::new();
    let mut i: usize = 0;
    assert(unique_id@.take(0) =~= Seq::empty());
    while i < 16
        invariant
            i <= 16,
            s@ == hex_string(unique_id@.take(i as int)),
            s@.len() == 2 * i,
        decreases 16 - i,
    {
        util::append_hex_lower(&mut s, unique_id[i]);
        i = i + 1;
        assert(unique_id@.take(i as int).drop_last() =~= unique_id@.take(i - 1));
    }
    assert(unique_id@.take(16) =~= unique_id@);
    s
}

/// The number of a device is written byte by byte in their order, two digits each: the higher one
/// first.
pub proof fn lemma_hex_string(bytes: Seq<u8>, i: int)
    requires
        0 <= i < bytes.len(),
    ensures
        hex_string(bytes).len() == 2 * bytes.len(),
        hex_string(bytes)[2 * i] == util::hex_digit_lower(bytes[i] as int / 16),
        hex_string(bytes)[2 * i + 1] == util::hex_digit_lower(bytes[i] as int % 16),
    decreases bytes.len(),
{
    let before = bytes.drop_last();
    lemma_hex_string_len(before);
    if i < before.len() {
        lemma_hex_string(before, i);
    }
}

proof fn lemma_hex_string_len(bytes: Seq<u8>)
    ensures
        hex_string(bytes).len() == 2 * bytes.len(),
    decreases bytes.len(),
{
    if bytes.len() > 0 {
        lemma_hex_string_len(bytes.drop_last());
    }
}

/// Products are told apart by their identifiers, and by their names.
pub proof fn lemma_products_differ(a: Product, b: Product)
    ensures
        a.ident() == b.ident() <==> a == b,
        a.model() == b.model() <==> a == b,
{
    reveal_strlit("virt-1-1");
    reveal_strlit("bln1-2512-1");
    reveal_strlit("bln2-2512-1");
    reveal_strlit("Virtual");
    reveal_strlit("Berlin Rapid Transit Lightmap");
    reveal_strlit("Berlin Rapid Transit Lightmap XL");
    assert("virt-1-1"@.len() == 8);
    assert("bln1-2512-1"@[3] == '1' && "bln2-2512-1"@[3] == '2');
    assert("bln1-2512-1"@.len() == 11);
    assert("Virtual"@.len() == 7);
    assert("Berlin Rapid Transit Lightmap"@.len() == 29);
    assert("Berlin Rapid Transit Lightmap XL"@.len() == 32);
}

} // verus!
