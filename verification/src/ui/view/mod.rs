//! UI render views.

pub mod download;
pub mod format;
pub mod map;
pub mod route;
pub mod search;

use vstd::prelude::*;

use crate::ui::view::download::DownloadView;
use crate::ui::view::map::MapView;
use crate::ui::view::route::RouteView;
use crate::ui::view::search::SearchView;

verus! {

/// Available UI views.
#[derive(Copy, Clone, Debug, PartialEq, Eq, Structural)]
pub enum View {
    MapView,
    Search,
    Download,
    Route,
}

impl Default for View {
    fn default() -> (view: Self)
        ensures
            view == View::MapView,
    {
        View::MapView
    }
}

/// UI view tracking.
pub struct Views {
    pub map: MapView,
    pub search: SearchView,
    pub download: DownloadView,
    pub route: RouteView,
    pub active_view: View,
}

impl Views {
    /// All views are valid.
    pub open spec fn well_formed(&self) -> bool {
        &&& self.map.well_formed()
        &&& self.search.well_formed()
        &&& self.download.well_formed()
        &&& self.route.well_formed()
    }

    /// Start with the map view.
    pub fn new(map: MapView, search: SearchView, download: DownloadView, route: RouteView) -> (views:
        Self)
        ensures
            views == (Views { map, search, download, route, active_view: View::MapView }),
    {
        Views { map, search, download, route, active_view: View::default() }
    }

    /// Update the active view.
    pub fn set_view(&mut self, view: View)
        ensures
            *final(self) == (Views { active_view: view, ..*old(self) }),
    {
        self.active_view = view;
    }

    /// Get mutable access to the download view.
    pub fn download(&mut self) -> (view: &mut DownloadView)
        ensures
            *view == old(self).download,
            *final(self) == (Views { download: *final(view), ..*old(self) }),
    {
        &mut self.download
    }

    /// Get mutable access to the search view.
    pub fn search(&mut self) -> (view: &mut SearchView)
        ensures
            *view == old(self).search,
            *final(self) == (Views { search: *final(view), ..*old(self) }),
    {
        &mut self.search
    }

    /// Get mutable access to the map view.
    pub fn map(&mut self) -> (view: &mut MapView)
        ensures
            *view == old(self).map,
            *final(self) == (Views { map: *final(view), ..*old(self) }),
    {
        &mut self.map
    }

    /// Get mutable access to the route view.
    pub fn route(&mut self) -> (view: &mut RouteView)
        ensures
            *view == old(self).route,
            *final(self) == (Views { route: *final(view), ..*old(self) }),
    {
        &mut self.route
    }

    /// Get the active view.
    pub fn active(&self) -> (view: View)
        ensures
            view == self.active_view,
    {
        self.active_view
    }
}

} // verus!
