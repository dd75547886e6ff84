//! The configuration editor's text buffers.
//!
//! The configuration itself (work-day hours, free holidays) lives outside
//! this crate; what the crate owns is the modal editing surface over it:
//! two text buffers and a cursor over them.

use vstd::prelude::*;

verus! {

/// Which configuration field the editor cursor is on.
#[derive(Clone, Copy, PartialEq, Eq, Structural, Debug, Hash)]
pub enum ConfigSelected {
    WorkDayHours,
    FreeHolidays,
}

impl ConfigSelected {
    pub open spec fn spec_next(self) -> ConfigSelected {
        match self {
            ConfigSelected::WorkDayHours => ConfigSelected::FreeHolidays,
            ConfigSelected::FreeHolidays => ConfigSelected::WorkDayHours,
        }
    }

    pub open spec fn spec_prev(self) -> ConfigSelected {
        match self {
            ConfigSelected::FreeHolidays => ConfigSelected::WorkDayHours,
            ConfigSelected::WorkDayHours => ConfigSelected::FreeHolidays,
        }
    }

    pub fn next(self) -> (r: ConfigSelected)
        ensures
            r == self.spec_next(),
            r.spec_prev() == self,
    {
        match self {
            ConfigSelected::WorkDayHours => ConfigSelected::FreeHolidays,
            ConfigSelected::FreeHolidays => ConfigSelected::WorkDayHours,
        }
    }

    pub fn prev(self) -> (r: ConfigSelected)
        ensures
            r == self.spec_prev(),
            r.spec_next() == self,
    {
        match self {
            ConfigSelected::FreeHolidays => ConfigSelected::WorkDayHours,
            ConfigSelected::WorkDayHours => ConfigSelected::FreeHolidays,
        }
    }
}

/// A configuration edit in progress: raw text for each field.
#[derive(Debug)]
pub struct ConfigBeingBuilt {
    pub work_day_hours: String,
    pub free_holidays: String,
    pub selected: ConfigSelected,
    pub editing: bool,
}

impl ConfigBeingBuilt {
    /// An editor opened over the shown texts of the two fields.
    pub fn open(work_day_hours: String, free_holidays: String) -> (r: ConfigBeingBuilt)
        ensures
            r.work_day_hours@ == work_day_hours@,
            r.free_holidays@ == free_holidays@,
            r.selected is WorkDayHours,
            r.editing,
    {
        ConfigBeingBuilt {
            work_day_hours,
            free_holidays,
            selected: ConfigSelected::WorkDayHours,
            editing: true,
        }
    }

    pub fn select_next(&mut self)
        ensures
            final(self).selected == old(self).selected.spec_next(),
            final(self).work_day_hours@ == old(self).work_day_hours@,
            final(self).free_holidays@ == old(self).free_holidays@,
            final(self).editing == old(self).editing,
    {
        self.selected = self.selected.next();
    }

    pub fn select_prev(&mut self)
        ensures
            final(self).selected == old(self).selected.spec_prev(),
            final(self).work_day_hours@ == old(self).work_day_hours@,
            final(self).free_holidays@ == old(self).free_holidays@,
            final(self).editing == old(self).editing,
    {
        self.selected = self.selected.prev();
    }

    /// The buffer the cursor is on, open for the caller to type into.
    pub fn selected_buf(&mut self) -> (r: &mut String)
        ensures
            old(self).selected is WorkDayHours ==> *r == old(self).work_day_hours,
            old(self).selected is WorkDayHours ==> final(self).work_day_hours == *final(r),
            old(self).selected is WorkDayHours ==> final(self).free_holidays == old(self).free_holidays,
            old(self).selected is FreeHolidays ==> *r == old(self).free_holidays,
            old(self).selected is FreeHolidays ==> final(self).free_holidays == *final(r),
            old(self).selected is FreeHolidays ==> final(self).work_day_hours == old(self).work_day_hours,
            final(self).selected == old(self).selected,
            final(self).editing == old(self).editing,
    {
        match self.selected {
            ConfigSelected::WorkDayHours => &mut self.work_day_hours,
            ConfigSelected::FreeHolidays => &mut self.free_holidays,
        }
    }

    pub fn set_editing(&mut self, state: bool)
        ensures
            final(self).editing == state,
            final(self).selected == old(self).selected,
            final(self).work_day_hours == old(self).work_day_hours,
            final(self).free_holidays == old(self).free_holidays,
    {
        self.editing = state;
    }

    pub fn is_editing(&self) -> (r: bool)
        ensures
            r == self.editing,
    {
        self.editing
    }
}

} // verus!
