//! Region tree.

use indexmap::IndexMap;
use vstd::prelude::*;
use vstd::std_specs::convert::FromSpecImpl;

use crate::region::children::{
    entries, key_position, lemma_key_position, map_entry, map_len, map_or_insert, new_map,
};
use crate::region::files::{geocoder_downloads, postal_downloads};
use crate::text::{opt_view, str_eq, views};

verus! {

/// Download state of a region's data.
#[derive(Copy, Clone, Debug, PartialEq, Eq, Structural)]
pub enum DownloadState {
    NoData,
    Available,
    Downloading,
    Downloaded,
}

/// Download state with the specified number.
pub open spec fn download_state_of(number: u8) -> DownloadState {
    match number {
        1 => DownloadState::Available,
        2 => DownloadState::Downloading,
        3 => DownloadState::Downloaded,
        _ => DownloadState::NoData,
    }
}

impl From<u8> for DownloadState {
    fn from(number: u8) -> (state: Self) {
        match number {
            0 => DownloadState::NoData,
            1 => DownloadState::Available,
            2 => DownloadState::Downloading,
            3 => DownloadState::Downloaded,
            _ => DownloadState::NoData,
        }
    }
}

impl FromSpecImpl<u8> for DownloadState {
    open spec fn obeys_from_spec() -> bool {
        true
    }

    open spec fn from_spec(number: u8) -> DownloadState {
        download_state_of(number)
    }
}

impl DownloadState {
    /// Number of a download state.
    pub open spec fn spec_number(self) -> u8 {
        match self {
            DownloadState::NoData => 0,
            DownloadState::Available => 1,
            DownloadState::Downloading => 2,
            DownloadState::Downloaded => 3,
        }
    }

    /// Get the number of this download state.
    pub fn number(self) -> (number: u8)
        ensures
            number == self.spec_number(),
    {
        match self {
            DownloadState::NoData => 0,
            DownloadState::Available => 1,
            DownloadState::Downloading => 2,
            DownloadState::Downloaded => 3,
        }
    }
}

/// Download states can be read back from their number.
pub proof fn law_download_state_round_trip(state: DownloadState)
    ensures
        download_state_of(state.spec_number()) == state,
{
}

/// Contents of a region.
pub struct RegionView {
    pub name: Seq<char>,
    pub regions: Seq<(Seq<char>, usize)>,
    pub storage_size: u64,
    pub valhalla_packages: Seq<Seq<char>>,
    pub geocoder_path: Option<Seq<char>>,
    pub postal_path: Option<Seq<char>>,
    pub download_state: DownloadState,
    pub download_pending: u64,
    pub download_done: u64,
}

impl RegionView {
    /// The region's data is installed.
    pub open spec fn installed(self) -> bool {
        self.download_state == DownloadState::Downloaded
    }

    /// The region has any data that could be downloaded.
    pub open spec fn has_data(self) -> bool {
        self.geocoder_path is Some || self.valhalla_packages.len() > 0 || self.postal_path is Some
    }

    /// The region uses a postal country dataset, unless it is ignored.
    pub open spec fn uses_postal(self, postal_path: Seq<char>, filter: Seq<char>) -> bool {
        &&& self.name != filter
        &&& self.postal_path == Some(postal_path)
        &&& self.installed()
    }

    /// The region uses a Valhalla package, unless it is ignored.
    pub open spec fn uses_package(self, package: Seq<char>, filter: Seq<char>) -> bool {
        &&& self.name != filter
        &&& self.valhalla_packages.contains(package)
        &&& self.installed()
    }

    /// Region after a download state change.
    ///
    /// The download progress is reset when a download is started.
    pub open spec fn with_state(self, download_state: DownloadState) -> Self {
        if download_state == DownloadState::Downloading {
            RegionView { download_state, download_pending: 0, download_done: 0, ..self }
        } else {
            RegionView { download_state, ..self }
        }
    }
}

/// Data for a geographic region.
pub struct Region {
    name: String,
    /// Indices of child regions by their key.
    regions: IndexMap<String, usize>,
    /// Complete size of this region and all of its children.
    storage_size: u64,
    valhalla_packages: Vec<String>,
    geocoder_path: Option<String>,
    postal_path: Option<String>,
    download_state: DownloadState,
    download_pending: u64,
    download_done: u64,
}

impl View for Region {
    type V = RegionView;

    closed spec fn view(&self) -> RegionView {
        RegionView {
            name: self.name@,
            regions: entries(self.regions),
            storage_size: self.storage_size,
            valhalla_packages: views(self.valhalla_packages@),
            geocoder_path: opt_view(self.geocoder_path),
            postal_path: opt_view(self.postal_path),
            download_state: self.download_state,
            download_pending: self.download_pending,
            download_done: self.download_done,
        }
    }
}

impl Region {
    /// Create a region without any children.
    pub fn new(
        name: String,
        storage_size: u64,
        valhalla_packages: Vec<String>,
        geocoder_path: Option<String>,
        postal_path: Option<String>,
    ) -> (region: Self)
        ensures
            region@ == (RegionView {
                name: name@,
                regions: Seq::empty(),
                storage_size,
                valhalla_packages: views(valhalla_packages@),
                geocoder_path: opt_view(geocoder_path),
                postal_path: opt_view(postal_path),
                download_state: DownloadState::NoData,
                download_pending: 0,
                download_done: 0,
            }),
    {
        Region {
            name,
            regions: new_map(),
            storage_size,
            valhalla_packages,
            geocoder_path,
            postal_path,
            download_state: DownloadState::NoData,
            download_pending: 0,
            download_done: 0,
        }
    }

    /// Get the region's name.
    pub fn name(&self) -> (name: &str)
        ensures
            name@ == self@.name,
    {
        self.name.as_str()
    }

    /// Get the complete size of this region and all of its children.
    pub fn storage_size(&self) -> (size: u64)
        ensures
            size == self@.storage_size,
    {
        self.storage_size
    }

    /// Get the Valhalla packages of this region.
    pub fn valhalla_packages(&self) -> (packages: &Vec<String>)
        ensures
            views(packages@) == self@.valhalla_packages,
    {
        &self.valhalla_packages
    }

    /// Get the path of this region's geocoder dataset.
    pub fn geocoder_dataset(&self) -> (path: &Option<String>)
        ensures
            opt_view(*path) == self@.geocoder_path,
    {
        &self.geocoder_path
    }

    /// Get the path of this region's postal dataset.
    pub fn postal_dataset(&self) -> (path: &Option<String>)
        ensures
            opt_view(*path) == self@.postal_path,
    {
        &self.postal_path
    }

    /// Get region's data download state.
    pub fn download_state(&self) -> (state: DownloadState)
        ensures
            state == self@.download_state,
    {
        self.download_state
    }

    /// Mark region as downloading.
    pub fn set_download_state(&mut self, download_state: DownloadState)
        ensures
            final(self)@ == old(self)@.with_state(download_state),
    {
        // Ensure download tracker is reset when download is started.
        if download_state == DownloadState::Downloading {
            self.download_pending = 0;
            self.download_done = 0;
        }

        self.download_state = download_state;
    }

    /// Get current download progress.
    ///
    /// The progress is the fraction of both numbers, or nothing without any
    /// pending download.
    pub fn download_progress(&self) -> (progress: Option<(u64, u64)>)
        ensures
            progress == (if self@.download_pending == 0 {
                None
            } else if self@.download_done < self@.download_pending {
                Some((self@.download_done, self@.download_pending))
            } else {
                Some((self@.download_pending, self@.download_pending))
            }),
    {
        if self.download_pending == 0 {
            None
        } else if self.download_done < self.download_pending {
            Some((self.download_done, self.download_pending))
        } else {
            Some((self.download_pending, self.download_pending))
        }
    }

    /// Add a new download with no progress.
    pub fn add_download(&mut self, size: u64)
        ensures
            final(self)@ == (RegionView {
                download_pending: ((old(self)@.download_pending + size)
                    % 0x1_0000_0000_0000_0000) as u64,
                ..old(self)@
            }),
    {
        self.download_pending = self.download_pending.wrapping_add(size);
    }

    /// Indicate a certain number of bytes have been downloaded.
    pub fn add_progress(&mut self, size: u64)
        ensures
            final(self)@ == (RegionView {
                download_done: ((old(self)@.download_done + size)
                    % 0x1_0000_0000_0000_0000) as u64,
                ..old(self)@
            }),
    {
        self.download_done = self.download_done.wrapping_add(size);
    }

    /// Check whether this region's data is installed.
    pub fn is_installed(&self) -> (installed: bool)
        ensures
            installed == self@.installed(),
    {
        self.download_state == DownloadState::Downloaded
    }

    /// Get the number of direct child regions.
    pub fn region_count(&self) -> (count: usize)
        ensures
            count == self@.regions.len(),
    {
        map_len(&self.regions)
    }

    /// Get the tree index of a direct child region.
    pub fn region(&self, position: usize) -> (index: Option<usize>)
        ensures
            index == (if position < self@.regions.len() {
                Some(self@.regions[position as int].1)
            } else {
                None
            }),
    {
        match map_entry(&self.regions, position) {
            Some((_, index)) => Some(index),
            None => None,
        }
    }

    /// Check whether the region uses a postal country dataset.
    fn uses_postal(&self, postal_path: &str, filter: &str) -> (result: bool)
        ensures
            result == self@.uses_postal(postal_path@, filter@),
    {
        let same_path = match &self.postal_path {
            Some(path) => str_eq(path.as_str(), postal_path),
            None => false,
        };
        !str_eq(self.name.as_str(), filter) && same_path && self.is_installed()
    }

    /// Check whether the region uses a Valhalla package.
    fn uses_package(&self, package: &str, filter: &str) -> (result: bool)
        ensures
            result == self@.uses_package(package@, filter@),
    {
        let mut has_package = false;
        let mut i: usize = 0;
        let ghost packages = views(self.valhalla_packages@);
        while i < self.valhalla_packages.len()
            invariant
                i <= self.valhalla_packages.len(),
                packages == views(self.valhalla_packages@),
                has_package ==> packages.contains(package@),
                !has_package ==> forall|j: int| 0 <= j < i ==> packages[j] != package@,
            decreases self.valhalla_packages.len() - i,
        {
            if str_eq(self.valhalla_packages[i].as_str(), package) {
                has_package = true;
                assert(packages[i as int] == package@);
            }
            i += 1;
        }
        !str_eq(self.name.as_str(), filter) && has_package && self.is_installed()
    }
}

/// All children of a region come behind it.
pub open spec fn well_formed(nodes: Seq<RegionView>) -> bool {
    &&& nodes.len() > 0
    &&& forall|i: int, k: int|
        0 <= i < nodes.len() && 0 <= k < nodes[i].regions.len() ==> i < (
        #[trigger] nodes[i].regions[k]).1 < nodes.len()
}

/// A region and everything below it, in preorder.
pub open spec fn descendants(nodes: Seq<RegionView>, index: int) -> Seq<int>
    decreases nodes.len() - index, nodes[index].regions.len() + 1,
{
    seq![index] + child_descendants(nodes, index, nodes[index].regions.len() as int)
}

/// Everything below the first `n` children of a region.
pub open spec fn child_descendants(nodes: Seq<RegionView>, index: int, n: int) -> Seq<int>
    decreases nodes.len() - index, n,
{
    if n <= 0 || n > nodes[index].regions.len() {
        Seq::empty()
    } else {
        let child = nodes[index].regions[n - 1].1 as int;
        child_descendants(nodes, index, n - 1) + (if index < child < nodes.len() {
            descendants(nodes, child)
        } else {
            Seq::empty()
        })
    }
}

/// Combined size of all installed regions of a list.
pub open spec fn installed_size(nodes: Seq<RegionView>, list: Seq<int>) -> int
    decreases list.len(),
{
    if list.len() == 0 {
        0
    } else {
        installed_size(nodes, list.drop_last()) + (if nodes[list.last()].installed() {
            nodes[list.last()].storage_size as int
        } else {
            0
        })
    }
}

/// Tree of regions.
pub struct RegionTree {
    nodes: Vec<Region>,
}

impl View for RegionTree {
    type V = Seq<RegionView>;

    closed spec fn view(&self) -> Seq<RegionView> {
        self.nodes@.map_values(|region: Region| region@)
    }
}

impl RegionTree {
    /// Create a tree from its root region.
    pub fn new(world: Region) -> (tree: Self)
        requires
            world@.regions.len() == 0,
        ensures
            tree@ == seq![world@],
            well_formed(tree@),
    {
        let mut nodes: Vec<Region> = Vec::new();
        nodes.push(world);
        let tree = RegionTree { nodes };
        proof {
            assert(tree@ =~= seq![world@]);
        }
        tree
    }

    /// Add a child to a region, unless there is one with the same key already.
    ///
    /// Returns the tree index of the child.
    pub fn insert(&mut self, parent: usize, key: String, region: Region) -> (child: usize)
        requires
            well_formed(old(self)@),
            parent < old(self)@.len(),
            region@.regions.len() == 0,
            old(self)@.len() < usize::MAX,
        ensures
            well_formed(final(self)@),
            ({
                let children = old(self)@[parent as int].regions;
                let position = key_position(children, key@);
                if position >= 0 {
                    &&& final(self)@ == old(self)@
                    &&& child == children[position].1
                } else {
                    &&& child == old(self)@.len()
                    &&& final(self)@ == old(self)@.update(
                        parent as int,
                        (RegionView {
                            regions: children.push((key@, child)),
                            ..old(self)@[parent as int]
                        }),
                    ).push(region@)
                }
            }),
            child < final(self)@.len(),
            parent < child,
    {
        let ghost before = self@;
        let next: usize = self.nodes.len();
        let node = &mut self.nodes[parent];
        let child = map_or_insert(&mut node.regions, key, next);
        if child == next {
            self.nodes.push(region);
        }
        proof {
            let children = before[parent as int].regions;
            let position = key_position(children, key@);
            lemma_key_position(children, key@);
            if position >= 0 {
                assert(parent < children[position].1 < before.len());
                assert(self@ =~= before);
            } else {
                assert(self@ =~= before.update(
                    parent as int,
                    (RegionView {
                        regions: children.push((key@, child)),
                        ..before[parent as int]
                    }),
                ).push(region@));
                assert forall|i: int, k: int|
                    0 <= i < self@.len() && 0 <= k < self@[i].regions.len() implies i < (
                #[trigger] self@[i].regions[k]).1 < self@.len() by {
                    if i < before.len() {
                        if i != parent || k < children.len() {
                            assert(i < before[i].regions[k].1 < before.len());
                        }
                    }
                }
            }
        }
        child
    }

    /// Get the number of regions.
    pub fn len(&self) -> (len: usize)
        ensures
            len == self@.len(),
    {
        self.nodes.len()
    }

    /// Get a region by its tree index.
    pub fn get(&self, index: usize) -> (region: &Region)
        requires
            index < self@.len(),
        ensures
            region@ == self@[index as int],
    {
        &self.nodes[index]
    }

    /// Update the download state of a region.
    pub fn set_download_state(&mut self, index: usize, download_state: DownloadState)
        requires
            index < old(self)@.len(),
        ensures
            final(self)@ == old(self)@.update(
                index as int,
                old(self)@[index as int].with_state(download_state),
            ),
            well_formed(old(self)@) ==> well_formed(final(self)@),
    {
        let ghost before = self@;
        let node = &mut self.nodes[index];
        node.set_download_state(download_state);
        proof {
            assert(self@ =~= before.update(
                index as int,
                before[index as int].with_state(download_state),
            ));
            if well_formed(before) {
                assert forall|i: int, k: int|
                    0 <= i < self@.len() && 0 <= k < self@[i].regions.len() implies i < (
                #[trigger] self@[i].regions[k]).1 < self@.len() by {
                    assert(i < before[i].regions[k].1 < before.len());
                }
            }
        }
    }

    /// Track the start of a download.
    pub fn add_download(&mut self, index: usize, size: u64)
        requires
            index < old(self)@.len(),
        ensures
            final(self)@ == old(self)@.update(
                index as int,
                (RegionView {
                    download_pending: ((old(self)@[index as int].download_pending + size)
                        % 0x1_0000_0000_0000_0000) as u64,
                    ..old(self)@[index as int]
                }),
            ),
    {
        let ghost before = self@;
        let node = &mut self.nodes[index];
        node.add_download(size);
        proof {
            assert(self@ =~= before.update(index as int, self@[index as int]));
        }
    }

    /// Track the progress of a download.
    pub fn add_progress(&mut self, index: usize, size: u64)
        requires
            index < old(self)@.len(),
        ensures
            final(self)@ == old(self)@.update(
                index as int,
                (RegionView {
                    download_done: ((old(self)@[index as int].download_done + size)
                        % 0x1_0000_0000_0000_0000) as u64,
                    ..old(self)@[index as int]
                }),
            ),
    {
        let ghost before = self@;
        let node = &mut self.nodes[index];
        node.add_progress(size);
        proof {
            assert(self@ =~= before.update(index as int, self@[index as int]));
        }
    }

    /// Get the tree indices of a region and everything below it.
    pub fn descendants(&self, index: usize) -> (list: Vec<usize>)
        requires
            well_formed(self@),
            index < self@.len(),
        ensures
            list@.map_values(|i: usize| i as int) == descendants(self@, index as int),
    {
        let mut list: Vec<usize> = Vec::new();
        proof {
            assert(list@.map_values(|i: usize| i as int) =~= Seq::<int>::empty());
        }
        self.collect(index, &mut list);
        proof {
            assert(list@.map_values(|i: usize| i as int) =~= descendants(self@, index as int));
        }
        list
    }

    /// Add a region and everything below it to a list.
    fn collect(&self, index: usize, list: &mut Vec<usize>)
        requires
            well_formed(self@),
            index < self@.len(),
        ensures
            final(list)@.map_values(|i: usize| i as int) == old(list)@.map_values(
                |i: usize| i as int,
            ) + descendants(self@, index as int),
        decreases self@.len() - index,
    {
        let ghost before = list@.map_values(|i: usize| i as int);
        list.push(index);
        proof {
            assert(list@.map_values(|i: usize| i as int) =~= before + seq![index as int]
                + child_descendants(self@, index as int, 0));
        }
        let count = self.nodes[index].region_count();
        let mut n: usize = 0;
        while n < count
            invariant
                well_formed(self@),
                index < self@.len(),
                n <= count,
                count == self@[index as int].regions.len(),
                list@.map_values(|i: usize| i as int) == before + seq![index as int]
                    + child_descendants(self@, index as int, n as int),
            decreases count - n,
        {
            if let Some(child) = self.nodes[index].region(n) {
                assert(index < self@[index as int].regions[n as int].1 < self@.len());
                let ghost partial = list@.map_values(|i: usize| i as int);
                self.collect(child, list);
                proof {
                    assert(partial + descendants(self@, child as int) =~= before
                        + seq![index as int] + child_descendants(self@, index as int, n + 1));
                }
            }
            n += 1;
        }
        proof {
            assert(before + seq![index as int] + child_descendants(
                self@,
                index as int,
                count as int,
            ) =~= before + descendants(self@, index as int));
        }
    }

    /// Get the current install size of a region in bytes.
    pub fn current_install_size(&self, index: usize) -> (size: u64)
        requires
            well_formed(self@),
            index < self@.len(),
            installed_size(self@, descendants(self@, index as int)) <= u64::MAX,
        ensures
            size == installed_size(self@, descendants(self@, index as int)),
    {
        let list = self.descendants(index);
        let ghost indices = descendants(self@, index as int);
        let mut size: u64 = 0;
        let mut i: usize = 0;
        proof {
            lemma_descendants_bound(self@, index as int);
            assert(indices.take(0) =~= Seq::<int>::empty());
        }
        while i < list.len()
            invariant
                i <= list.len(),
                list@.map_values(|i: usize| i as int) == indices,
                forall|j: int| 0 <= j < indices.len() ==> 0 <= #[trigger] indices[j] < self@.len(),
                installed_size(self@, indices) <= u64::MAX,
                size == installed_size(self@, indices.take(i as int)),
            decreases list.len() - i,
        {
            assert(indices[i as int] == list@[i as int]);
            let region = self.get(list[i]);
            proof {
                assert(indices.take(i + 1).drop_last() =~= indices.take(i as int));
                assert(indices.take(i + 1).last() == indices[i as int]);
                lemma_installed_size_prefix(self@, indices, i + 1);
            }

            // The size of a downloadable region never includes its children, so we can just
            // add it without worrying about counting things twice.
            if region.is_installed() {
                size += region.storage_size;
            }
            i += 1;
        }
        proof {
            assert(indices.take(list.len() as int) =~= indices);
        }
        size
    }

    /// Get the installed regions below a region, including the region itself.
    pub fn for_installed(&self, index: usize) -> (installed: Vec<usize>)
        requires
            well_formed(self@),
            index < self@.len(),
        ensures
            installed@.map_values(|i: usize| i as int) == descendants(self@, index as int).filter(
                |i: int| self@[i].installed(),
            ),
    {
        let list = self.descendants(index);
        let ghost indices = descendants(self@, index as int);
        let ghost is_installed = |i: int| self@[i].installed();
        let mut installed: Vec<usize> = Vec::new();
        let mut i: usize = 0;
        proof {
            lemma_descendants_bound(self@, index as int);
            reveal(Seq::filter);
            assert(indices.take(0) =~= Seq::<int>::empty());
            assert(installed@.map_values(|i: usize| i as int) =~= Seq::<int>::empty());
        }
        while i < list.len()
            invariant
                i <= list.len(),
                list@.map_values(|i: usize| i as int) == indices,
                forall|j: int| 0 <= j < indices.len() ==> 0 <= #[trigger] indices[j] < self@.len(),
                is_installed == (|i: int| self@[i].installed()),
                installed@.map_values(|i: usize| i as int) == indices.take(i as int).filter(
                    is_installed,
                ),
            decreases list.len() - i,
        {
            assert(indices[i as int] == list@[i as int]);
            let region = self.get(list[i]);
            let ghost before = installed@;
            proof {
                reveal(Seq::filter);
                assert(indices.take(i + 1).drop_last() =~= indices.take(i as int));
                assert(indices.take(i + 1).last() == indices[i as int]);
            }
            if region.is_installed() {
                installed.push(list[i]);
                proof {
                    assert(installed@.map_values(|i: usize| i as int) =~= before.map_values(
                        |i: usize| i as int,
                    ).push(indices[i as int]));
                }
            }
            i += 1;
        }
        proof {
            assert(indices.take(list.len() as int) =~= indices);
        }
        installed
    }

    /// Check whether this region or any child has Valhalla tiles downloaded.
    pub fn has_valhalla_tiles(&self, index: usize) -> (result: bool)
        requires
            well_formed(self@),
            index < self@.len(),
        ensures
            result == exists|j: int|
                0 <= j < descendants(self@, index as int).len() && {
                    let region = self@[#[trigger] descendants(self@, index as int)[j]];
                    region.valhalla_packages.len() > 0 && region.installed()
                },
    {
        let list = self.descendants(index);
        let ghost indices = descendants(self@, index as int);
        let mut i: usize = 0;
        proof {
            lemma_descendants_bound(self@, index as int);
        }
        while i < list.len()
            invariant
                i <= list.len(),
                list@.map_values(|i: usize| i as int) == indices,
                indices == descendants(self@, index as int),
                forall|j: int| 0 <= j < indices.len() ==> 0 <= #[trigger] indices[j] < self@.len(),
                forall|j: int|
                    0 <= j < i ==> {
                        let region = self@[#[trigger] indices[j]];
                        !(region.valhalla_packages.len() > 0 && region.installed())
                    },
            decreases list.len() - i,
        {
            assert(indices[i as int] == list@[i as int]);
            let region = self.get(list[i]);
            if region.valhalla_packages.len() > 0 && region.is_installed() {
                return true;
            }
            i += 1;
        }
        false
    }

    /// Check if a postal country dataset is required by this region or its
    /// children.
    ///
    /// The `filter` argument can be used to ignore a specific region, assuming
    /// that it never requires the specified postal country dataset.
    pub fn requires_postal_country(&self, index: usize, postal_path: &str, filter: &str) -> (result:
        bool)
        requires
            well_formed(self@),
            index < self@.len(),
        ensures
            result == exists|j: int|
                0 <= j < descendants(self@, index as int).len() && self@[#[trigger] descendants(
                    self@,
                    index as int,
                )[j]].uses_postal(postal_path@, filter@),
    {
        let list = self.descendants(index);
        let ghost indices = descendants(self@, index as int);
        let mut i: usize = 0;
        proof {
            lemma_descendants_bound(self@, index as int);
        }
        while i < list.len()
            invariant
                i <= list.len(),
                list@.map_values(|i: usize| i as int) == indices,
                indices == descendants(self@, index as int),
                forall|j: int| 0 <= j < indices.len() ==> 0 <= #[trigger] indices[j] < self@.len(),
                forall|j: int|
                    0 <= j < i ==> !self@[#[trigger] indices[j]].uses_postal(postal_path@, filter@),
            decreases list.len() - i,
        {
            assert(indices[i as int] == list@[i as int]);
            if self.get(list[i]).uses_postal(postal_path, filter) {
                return true;
            }
            i += 1;
        }
        false
    }

    /// Check if a Valhalla package dataset is required by this region or its
    /// children.
    ///
    /// The `filter` argument can be used to ignore a specific region, assuming
    /// that it never requires the specified package.
    pub fn requires_valhalla_package(&self, index: usize, package: &str, filter: &str) -> (result:
        bool)
        requires
            well_formed(self@),
            index < self@.len(),
        ensures
            result == exists|j: int|
                0 <= j < descendants(self@, index as int).len() && self@[#[trigger] descendants(
                    self@,
                    index as int,
                )[j]].uses_package(package@, filter@),
    {
        let list = self.descendants(index);
        let ghost indices = descendants(self@, index as int);
        let mut i: usize = 0;
        proof {
            lemma_descendants_bound(self@, index as int);
        }
        while i < list.len()
            invariant
                i <= list.len(),
                list@.map_values(|i: usize| i as int) == indices,
                indices == descendants(self@, index as int),
                forall|j: int| 0 <= j < indices.len() ==> 0 <= #[trigger] indices[j] < self@.len(),
                forall|j: int|
                    0 <= j < i ==> !self@[#[trigger] indices[j]].uses_package(package@, filter@),
            decreases list.len() - i,
        {
            assert(indices[i as int] == list@[i as int]);
            if self.get(list[i]).uses_package(package, filter) {
                return true;
            }
            i += 1;
        }
        false
    }

    /// Get a sub-region using a list of child positions.
    ///
    /// Positions behind the first one which is `usize::MAX` are ignored.
    pub fn index_region(&self, index: &[usize; 5]) -> (region: usize)
        requires
            well_formed(self@),
            has_path(self@, index@, 0, 0),
        ensures
            region == path_end(self@, index@, 0, 0),
            region < self@.len(),
    {
        let mut region: usize = 0;
        let mut depth: usize = 0;
        while depth < 5
            invariant
                depth <= 5,
                index@.len() == 5,
                well_formed(self@),
                region < self@.len(),
                has_path(self@, index@, depth as int, region as int),
                path_end(self@, index@, depth as int, region as int) == path_end(
                    self@,
                    index@,
                    0,
                    0,
                ),
            decreases 5 - depth,
        {
            let position: usize = index[depth];
            if position == usize::MAX {
                return region;
            }
            assert(region < self@[region as int].regions[position as int].1 < self@.len());
            match self.nodes[region].region(position) {
                Some(child) => {
                    region = child;
                },
                None => return region,
            }
            depth += 1;
        }
        region
    }

    /// Update download status of all regions from their installed files.
    pub fn refresh_download_state(&mut self, postal_global_installed: bool, files: &Vec<InstalledFiles>)
        requires
            files.len() == old(self)@.len(),
            well_formed(old(self)@),
            forall|i: int|
                0 <= i < files.len() ==> files[i].belong_to(#[trigger] old(self)@[i]),
        ensures
            well_formed(final(self)@),
            final(self)@.len() == old(self)@.len(),
            forall|i: int|
                0 <= i < files.len() ==> #[trigger] final(self)@[i] == old(self)@[i].with_state(
                    refreshed_state(old(self)@[i], postal_global_installed, files[i]),
                ),
    {
        let ghost before = self@;
        let mut i: usize = 0;
        while i < self.nodes.len()
            invariant
                i <= self@.len(),
                self@.len() == before.len(),
                files.len() == before.len(),
                well_formed(self@),
                forall|j: int| 0 <= j < files.len() ==> files[j].belong_to(#[trigger] before[j]),
                forall|j: int| i <= j < before.len() ==> #[trigger] self@[j] == before[j],
                forall|j: int|
                    0 <= j < i ==> #[trigger] self@[j] == before[j].with_state(
                        refreshed_state(before[j], postal_global_installed, files[j]),
                    ),
            decreases before.len() - i,
        {
            assert(self@[i as int] == before[i as int]);
            assert(self.nodes@[i as int]@ == self@[i as int]);
            let state = self.nodes[i].refreshed_state(postal_global_installed, &files[i]);
            self.set_download_state(i, state);
            i += 1;
        }
    }
}

/// Installed files of a region.
#[derive(Debug)]
pub struct InstalledFiles {
    /// Whether each of the region's geocoder files exists.
    pub geocoder: Vec<bool>,
    /// Whether each of the region's postal files exists.
    pub postal: Vec<bool>,
    /// Whether each known file of each Valhalla package exists. Packages without
    /// list could not be read.
    pub packages: Vec<Option<Vec<bool>>>,
}

impl InstalledFiles {
    /// There is an entry for every file and every package of a region.
    pub open spec fn belong_to(self, region: RegionView) -> bool {
        &&& self.geocoder.len() == geocoder_downloads(region, Seq::empty()).len()
        &&& self.postal.len() == postal_downloads(region, Seq::empty()).len()
        &&& self.packages.len() == region.valhalla_packages.len()
    }
}

/// All files of a list exist.
pub open spec fn all_exist(files: Seq<bool>) -> bool {
    forall|i: int| 0 <= i < files.len() ==> #[trigger] files[i]
}

/// All files of all packages are known and exist.
pub open spec fn packages_exist(packages: Seq<Option<Vec<bool>>>) -> bool {
    forall|i: int|
        0 <= i < packages.len() ==> (#[trigger] packages[i] matches Some(files) && all_exist(files@))
}

/// Download state of a region with the specified files.
///
/// Regions are always available for download if global postal data is missing.
pub open spec fn refreshed_state(
    region: RegionView,
    postal_global_installed: bool,
    files: InstalledFiles,
) -> DownloadState {
    if !region.has_data() {
        DownloadState::NoData
    } else if postal_global_installed && all_exist(files.geocoder@) && all_exist(files.postal@)
        && packages_exist(files.packages@) {
        DownloadState::Downloaded
    } else {
        DownloadState::Available
    }
}

impl Region {
    /// Determine download status based on the installed files.
    fn refreshed_state(&self, postal_global_installed: bool, files: &InstalledFiles) -> (state:
        DownloadState)
        requires
            files.belong_to(self@),
        ensures
            state == refreshed_state(self@, postal_global_installed, *files),
    {
        // Short-circuit if no data is available.
        if self.geocoder_path.is_none() && self.valhalla_packages.len() == 0
            && self.postal_path.is_none() {
            return DownloadState::NoData;
        }

        // Always mark region as available if global postal data is missing.
        if !postal_global_installed {
            return DownloadState::Available;
        }

        // Check if geocoder or postal data needs to be downloaded.
        if !all(&files.geocoder) || !all(&files.postal) {
            return DownloadState::Available;
        }

        // Check if any Valhalla tiles are missing.
        let mut i: usize = 0;
        while i < files.packages.len()
            invariant
                i <= files.packages.len(),
                self@.has_data(),
                forall|j: int|
                    0 <= j < i ==> (#[trigger] files.packages[j] matches Some(files) && all_exist(
                        files@,
                    )),
            decreases files.packages.len() - i,
        {
            let installed = match &files.packages[i] {
                Some(package) => all(package),
                None => false,
            };
            if !installed {
                assert(!packages_exist(files.packages@)) by {
                    assert(!(files.packages@[i as int] matches Some(files) && all_exist(files@)));
                }
                return DownloadState::Available;
            }
            i += 1;
        }

        // Mark as downloaded if no data is missing.
        DownloadState::Downloaded
    }
}

/// Check whether all files of a list exist.
fn all(files: &Vec<bool>) -> (result: bool)
    ensures
        result == all_exist(files@),
{
    let mut i: usize = 0;
    while i < files.len()
        invariant
            i <= files.len(),
            forall|j: int| 0 <= j < i ==> #[trigger] files@[j],
        decreases files.len() - i,
    {
        if !files[i] {
            assert(!files@[i as int]);
            return false;
        }
        i += 1;
    }
    true
}

/// Every position of a path leads to a child region.
pub open spec fn has_path(nodes: Seq<RegionView>, path: Seq<usize>, depth: int, index: int) -> bool
    decreases path.len() - depth,
{
    if depth >= path.len() || path[depth] == usize::MAX {
        true
    } else {
        &&& path[depth] < nodes[index].regions.len()
        &&& has_path(nodes, path, depth + 1, nodes[index].regions[path[depth] as int].1 as int)
    }
}

/// Region at the end of a path.
pub open spec fn path_end(nodes: Seq<RegionView>, path: Seq<usize>, depth: int, index: int) -> int
    decreases path.len() - depth,
{
    if depth >= path.len() || path[depth] == usize::MAX {
        index
    } else {
        path_end(nodes, path, depth + 1, nodes[index].regions[path[depth] as int].1 as int)
    }
}

/// Descendants are regions of the tree, behind the region itself.
pub proof fn lemma_descendants_bound(nodes: Seq<RegionView>, index: int)
    requires
        well_formed(nodes),
        0 <= index < nodes.len(),
    ensures
        forall|j: int|
            0 <= j < descendants(nodes, index).len() ==> index <= #[trigger] descendants(
                nodes,
                index,
            )[j] < nodes.len(),
    decreases nodes.len() - index, nodes[index].regions.len() + 1,
{
    lemma_child_descendants_bound(nodes, index, nodes[index].regions.len() as int);
    let below = child_descendants(nodes, index, nodes[index].regions.len() as int);
    let list = descendants(nodes, index);
    assert(list == seq![index] + below);
    assert forall|j: int| 0 <= j < list.len() implies index <= #[trigger] list[j] < nodes.len() by {
        if j > 0 {
            assert(list[j] == below[j - 1]);
        }
    }
}

proof fn lemma_child_descendants_bound(nodes: Seq<RegionView>, index: int, n: int)
    requires
        well_formed(nodes),
        0 <= index < nodes.len(),
        0 <= n <= nodes[index].regions.len(),
    ensures
        forall|j: int|
            0 <= j < child_descendants(nodes, index, n).len() ==> index
                <= #[trigger] child_descendants(nodes, index, n)[j] < nodes.len(),
    decreases nodes.len() - index, n,
{
    if n > 0 {
        assert(index < nodes[index].regions[n - 1].1 < nodes.len());
        lemma_child_descendants_bound(nodes, index, n - 1);
        let child = nodes[index].regions[n - 1].1 as int;
        lemma_descendants_bound(nodes, child);
        let before = child_descendants(nodes, index, n - 1);
        let below = descendants(nodes, child);
        let list = child_descendants(nodes, index, n);
        assert(list == before + below);
        assert forall|j: int| 0 <= j < list.len() implies index <= #[trigger] list[j]
            < nodes.len() by {
            if j < before.len() {
                assert(list[j] == before[j]);
            } else {
                assert(list[j] == below[j - before.len()]);
            }
        }
    }
}

/// The size of a part of a list never exceeds the size of the list.
proof fn lemma_installed_size_prefix(nodes: Seq<RegionView>, list: Seq<int>, n: int)
    requires
        0 <= n <= list.len(),
    ensures
        0 <= installed_size(nodes, list.take(n)) <= installed_size(nodes, list),
    decreases list.len(),
{
    lemma_installed_size_nonnegative(nodes, list.take(n));
    if n < list.len() {
        lemma_installed_size_prefix(nodes, list.drop_last(), n);
        assert(list.drop_last().take(n) =~= list.take(n));
    } else {
        assert(list.take(n) =~= list);
    }
}

proof fn lemma_installed_size_nonnegative(nodes: Seq<RegionView>, list: Seq<int>)
    ensures
        0 <= installed_size(nodes, list),
    decreases list.len(),
{
    if list.len() > 0 {
        lemma_installed_size_nonnegative(nodes, list.drop_last());
    }
}

/// The descendants of a region are the region itself and all children of
/// descendants.
pub proof fn law_children_of_descendants_are_descendants(
    nodes: Seq<RegionView>,
    index: int,
    i: int,
    k: int,
)
    requires
        well_formed(nodes),
        0 <= index < nodes.len(),
        descendants(nodes, index).contains(i),
        0 <= k < nodes[i].regions.len(),
    ensures
        descendants(nodes, index).contains(index),
        descendants(nodes, index).contains(nodes[i].regions[k].1 as int),
    decreases nodes.len() - index,
{
    let count = nodes[index].regions.len() as int;
    let list = descendants(nodes, index);
    let below = child_descendants(nodes, index, count);
    assert(list[0] == index);
    if i == index {
        let child = nodes[index].regions[k].1 as int;
        assert(index < nodes[index].regions[k].1 < nodes.len());
        assert(descendants(nodes, child)[0] == child);
        lemma_child_is_below(nodes, index, count, k, child);
    } else {
        let j = choose|j: int| 0 <= j < list.len() && list[j] == i;
        assert(below[j - 1] == i);
        let n = lemma_below_child(nodes, index, count, i);
        let child = nodes[index].regions[n].1 as int;
        law_children_of_descendants_are_descendants(nodes, child, i, k);
        lemma_child_is_below(nodes, index, count, n, nodes[i].regions[k].1 as int);
    }
}

/// Everything below a child is below the region.
proof fn lemma_child_is_below(nodes: Seq<RegionView>, index: int, n: int, k: int, i: int)
    requires
        well_formed(nodes),
        0 <= index < nodes.len(),
        0 <= k < n <= nodes[index].regions.len(),
        descendants(nodes, nodes[index].regions[k].1 as int).contains(i),
    ensures
        child_descendants(nodes, index, n).contains(i),
        n == nodes[index].regions.len() ==> descendants(nodes, index).contains(i),
    decreases n,
{
    assert(index < nodes[index].regions[n - 1].1 < nodes.len());
    let child = nodes[index].regions[n - 1].1 as int;
    let before = child_descendants(nodes, index, n - 1);
    let all = child_descendants(nodes, index, n);
    if k == n - 1 {
        let below = descendants(nodes, child);
        let j = choose|j: int| 0 <= j < below.len() && below[j] == i;
        assert(all[before.len() + j] == i);
    } else {
        lemma_child_is_below(nodes, index, n - 1, k, i);
        let j = choose|j: int| 0 <= j < before.len() && before[j] == i;
        assert(all[j] == i);
    }
    if n == nodes[index].regions.len() {
        let j = choose|j: int| 0 <= j < all.len() && all[j] == i;
        assert(descendants(nodes, index)[j + 1] == i);
    }
}

/// Everything below a region is below one of its children.
proof fn lemma_below_child(nodes: Seq<RegionView>, index: int, n: int, i: int) -> (k: int)
    requires
        well_formed(nodes),
        0 <= index < nodes.len(),
        0 <= n <= nodes[index].regions.len(),
        child_descendants(nodes, index, n).contains(i),
    ensures
        0 <= k < n,
        index < nodes[index].regions[k].1 < nodes.len(),
        descendants(nodes, nodes[index].regions[k].1 as int).contains(i),
    decreases n,
{
    assert(n > 0);
    assert(index < nodes[index].regions[n - 1].1 < nodes.len());
    let child = nodes[index].regions[n - 1].1 as int;
    let before = child_descendants(nodes, index, n - 1);
    let below = descendants(nodes, child);
    let all = child_descendants(nodes, index, n);
    let j = choose|j: int| 0 <= j < all.len() && all[j] == i;
    if j < before.len() {
        assert(before[j] == i);
        lemma_below_child(nodes, index, n - 1, i)
    } else {
        assert(below[j - before.len()] == i);
        n - 1
    }
}

/// Every descendant of a region other than itself is a child of another
/// descendant.
pub proof fn law_descendants_have_parents(nodes: Seq<RegionView>, index: int, i: int)
    requires
        well_formed(nodes),
        0 <= index < nodes.len(),
        descendants(nodes, index).contains(i),
        i != index,
    ensures
        exists|parent: int, k: int|
            {
                &&& descendants(nodes, index).contains(parent)
                &&& 0 <= k < nodes[parent].regions.len()
                &&& (#[trigger] nodes[parent].regions[k]).1 == i
            },
    decreases nodes.len() - index,
{
    let count = nodes[index].regions.len() as int;
    let list = descendants(nodes, index);
    let below = child_descendants(nodes, index, count);
    let j = choose|j: int| 0 <= j < list.len() && list[j] == i;
    assert(below[j - 1] == i);
    let n = lemma_below_child(nodes, index, count, i);
    let child = nodes[index].regions[n].1 as int;
    assert(list[0] == index);
    if i == child {
        assert(nodes[index].regions[n].1 == i);
    } else {
        law_descendants_have_parents(nodes, child, i);
        let (parent, k) = choose|parent: int, k: int|
            {
                &&& descendants(nodes, child).contains(parent)
                &&& 0 <= k < nodes[parent].regions.len()
                &&& (#[trigger] nodes[parent].regions[k]).1 == i
            };
        lemma_child_is_below(nodes, index, count, n, parent);
    }
}

/// The installed size of several regions is the sum of their sizes, with regions
/// which are not installed taking up no space.
pub proof fn law_installed_sizes_add_up(nodes: Seq<RegionView>, a: Seq<int>, b: Seq<int>, i: int)
    ensures
        installed_size(nodes, a + b) == installed_size(nodes, a) + installed_size(nodes, b),
        installed_size(nodes, seq![i]) == (if nodes[i].download_state
            == DownloadState::Downloaded {
            nodes[i].storage_size as int
        } else {
            0
        }),
    decreases b.len(),
{
    assert(seq![i].drop_last() =~= Seq::<int>::empty());
    assert(installed_size(nodes, Seq::<int>::empty()) == 0);
    if b.len() == 0 {
        assert(a + b =~= a);
    } else {
        law_installed_sizes_add_up(nodes, a, b.drop_last(), i);
        assert((a + b).drop_last() =~= a + b.drop_last());
    }
}

/// Changing the download state changes nothing else, except for starting with no
/// progress when a download begins.
pub proof fn law_download_starts_without_progress(region: RegionView, state: DownloadState)
    ensures
        ({
            let after = region.with_state(state);
            &&& after.download_state == state
            &&& state == DownloadState::Downloading ==> after.download_pending == 0
                && after.download_done == 0
            &&& state != DownloadState::Downloading ==> after.download_pending
                == region.download_pending && after.download_done == region.download_done
            &&& after.name == region.name && after.regions == region.regions
            &&& after.storage_size == region.storage_size
            &&& after.valhalla_packages == region.valhalla_packages
            &&& after.geocoder_path == region.geocoder_path
            &&& after.postal_path == region.postal_path
        }),
{
}

/// A region is installed exactly if it has data and none of its files is missing.
/// Regions without data can never be downloaded.
pub proof fn law_installed_regions_have_all_files(
    region: RegionView,
    postal_global_installed: bool,
    files: InstalledFiles,
)
    ensures
        ({
            let state = refreshed_state(region, postal_global_installed, files);
            let has_data = region.geocoder_path is Some || region.postal_path is Some
                || region.valhalla_packages.len() > 0;
            let complete = postal_global_installed && (forall|i: int|
                0 <= i < files.geocoder.len() ==> #[trigger] files.geocoder[i]) && (forall|i: int|
                0 <= i < files.postal.len() ==> #[trigger] files.postal[i]) && (forall|i: int|
                0 <= i < files.packages.len() ==> (#[trigger] files.packages[i]) is Some) && (
            forall|i: int, j: int|
                0 <= i < files.packages.len() && files.packages[i] is Some && 0 <= j
                    < files.packages[i]->0.len() ==> #[trigger] files.packages[i]->0[j]);
            &&& state == DownloadState::NoData <==> !has_data
            &&& state == DownloadState::Downloaded <==> has_data && complete
            &&& state == DownloadState::Available <==> has_data && !complete
        }),
{
    let complete = postal_global_installed && (forall|i: int|
        0 <= i < files.geocoder.len() ==> #[trigger] files.geocoder[i]) && (forall|i: int|
        0 <= i < files.postal.len() ==> #[trigger] files.postal[i]) && (forall|i: int|
        0 <= i < files.packages.len() ==> (#[trigger] files.packages[i]) is Some) && (forall|
        i: int,
        j: int,
    |
        0 <= i < files.packages.len() && files.packages[i] is Some && 0 <= j
            < files.packages[i]->0.len() ==> #[trigger] files.packages[i]->0[j]);
    if complete {
        assert forall|i: int| 0 <= i < files.packages.len() implies (
        #[trigger] files.packages@[i] matches Some(list) && all_exist(list@)) by {
            assert(files.packages[i] is Some);
            let list = files.packages[i]->0;
            assert forall|j: int| 0 <= j < list@.len() implies #[trigger] list@[j] by {
                assert(files.packages[i]->0[j]);
            }
        }
    }
    if packages_exist(files.packages@) {
        assert forall|i: int, j: int|
            0 <= i < files.packages.len() && files.packages[i] is Some && 0 <= j
                < files.packages[i]->0.len() implies #[trigger] files.packages[i]->0[j] by {
            assert(files.packages@[i] is Some);
            assert(all_exist(files.packages@[i]->0@));
            assert(files.packages@[i]->0@[j]);
        }
        assert forall|i: int| 0 <= i < files.packages.len() implies (
        #[trigger] files.packages[i]) is Some by {
            assert(files.packages@[i] is Some);
        }
    }
    if all_exist(files.geocoder@) {
        assert forall|i: int| 0 <= i < files.geocoder.len() implies #[trigger] files.geocoder[i] by {
            assert(files.geocoder@[i]);
        }
    }
    if all_exist(files.postal@) {
        assert forall|i: int| 0 <= i < files.postal.len() implies #[trigger] files.postal[i] by {
            assert(files.postal@[i]);
        }
    }
}

/// An empty path leads to the region itself, and adding a position to the end of
/// a path leads to the child at that position.
pub proof fn law_paths_lead_to_children(
    nodes: Seq<RegionView>,
    path: Seq<usize>,
    depth: int,
    index: int,
    n: int,
    position: usize,
)
    requires
        0 <= depth <= n < path.len(),
        path[n] == usize::MAX,
        forall|i: int| depth <= i < n ==> #[trigger] path[i] != usize::MAX,
        position != usize::MAX,
        n + 1 < path.len() ==> path[n + 1] == usize::MAX,
    ensures
        n == depth ==> path_end(nodes, path, depth, index) == index,
        path_end(nodes, path.update(n, position), depth, index) == nodes[path_end(
            nodes,
            path,
            depth,
            index,
        )].regions[position as int].1,
    decreases n - depth,
{
    let longer = path.update(n, position);
    if depth < n {
        assert(path[depth] != usize::MAX);
        assert(longer[depth] == path[depth]);
        law_paths_lead_to_children(
            nodes,
            path,
            depth + 1,
            nodes[index].regions[path[depth] as int].1 as int,
            n,
            position,
        );
    } else {
        assert(longer[depth] == position);
        reveal_with_fuel(path_end, 2);
    }
}

/// Only regions which are completely downloaded use postal data and packages, and
/// never the one which is left out.
pub proof fn law_installed_regions_use_data(region: RegionView, data: Seq<char>, filter: Seq<char>)
    ensures
        region.uses_postal(data, filter) <==> region.download_state == DownloadState::Downloaded
            && region.name != filter && region.postal_path is Some && region.postal_path->0 == data,
        region.uses_package(data, filter) <==> region.download_state == DownloadState::Downloaded
            && region.name != filter && exists|i: int|
            0 <= i < region.valhalla_packages.len() && #[trigger] region.valhalla_packages[i]
                == data,
{
}

} // verus!
