use vstd::prelude::*;

verus! {

/// How the file panel presents entries.
pub enum FileView {
    IconView,
    ListView,
}

/// The key by which the file panel orders entries.
#[derive(Debug, Clone, Copy, PartialEq, Eq, Structural)]
pub enum SortColumn {
    Name,
    Size,
    ModifiedDate,
    Type,
}

/// Direction of the ordering.
#[derive(Debug, Clone, Copy, PartialEq, Eq, Structural)]
pub enum SortOrder {
    Ascending,
    Descending,
}

/// Display and navigation toggles, one instance per window.
pub struct FMSettings {
    pub show_hidden: bool,
    pub file_view: FileView,
    pub sort_column: SortColumn,
    pub sort_order: SortOrder,
    pub folders_first: bool,
}

impl FMSettings {
    /// The defaults: hidden entries off, icon view, by name ascending,
    /// folders first.
    pub open spec fn is_default(&self) -> bool {
        &&& !self.show_hidden
        &&& self.file_view is IconView
        &&& self.sort_column == SortColumn::Name
        &&& self.sort_order == SortOrder::Ascending
        &&& self.folders_first
    }

    pub fn new() -> (s: Self)
        ensures
            s.is_default(),
    {
        FMSettings {
            show_hidden: false,
            file_view: FileView::IconView,
            sort_column: SortColumn::Name,
            sort_order: SortOrder::Ascending,
            folders_first: true,
        }
    }

    /// Flips whether hidden entries are listed; returns the new value.
    pub fn toggle_show_hidden(&mut self) -> (r: bool)
        ensures
            r == final(self).show_hidden,
            final(self).show_hidden == !old(self).show_hidden,
            final(self).folders_first == old(self).folders_first,
            final(self).sort_column == old(self).sort_column,
            final(self).sort_order == old(self).sort_order,
            final(self).file_view == old(self).file_view,
    {
        self.show_hidden = !self.show_hidden;
        self.show_hidden
    }

    /// Flips whether directories come before files; returns the new value.
    pub fn toggle_folders_first(&mut self) -> (r: bool)
        ensures
            r == final(self).folders_first,
            final(self).folders_first == !old(self).folders_first,
            final(self).show_hidden == old(self).show_hidden,
            final(self).sort_column == old(self).sort_column,
            final(self).sort_order == old(self).sort_order,
            final(self).file_view == old(self).file_view,
    {
        self.folders_first = !self.folders_first;
        self.folders_first
    }
}

} // verus!
