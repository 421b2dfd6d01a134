//! What the console listing shows: which view a command line selects, the
//! disks under each enclosure, and how warm a disk is.

use crate::disks::{disk_views, Disk, DiskView};
use crate::enclosure::Enclosure;
use crate::order::{keys_of, sorted_by_key, stable_order, SortKey};
use crate::text::{chars_of, parse_i32, parsed_i32, same_text};
use vstd::prelude::*;

verus! {

/// How warm a disk is, for the colour of its temperature.
#[derive(Debug, Clone, Copy, PartialEq, Eq, Structural)]
pub enum TemperatureLevel {
    /// Up to 45 degrees.
    Normal,
    /// Above 45 and up to 50 degrees.
    Elevated,
    /// Above 50 degrees.
    Critical,
}

/// The level of a temperature in degrees.
pub open spec fn level_of(degrees: int) -> TemperatureLevel {
    if 45 < degrees <= 50 {
        TemperatureLevel::Elevated
    } else if degrees > 50 {
        TemperatureLevel::Critical
    } else {
        TemperatureLevel::Normal
    }
}

/// The level of the temperature that a disk record holds; `None` where the
/// text is no 32-bit decimal number, and the temperature so unreadable.
pub fn color_temp(temperature: &str) -> (r: Option<TemperatureLevel>)
    ensures
        r == match parsed_i32(temperature@) {
            Some(t) => Some(level_of(t as int)),
            None => None,
        },
{
    match parse_i32(&chars_of(temperature)) {
        Some(t) => if t > 45 && t <= 50 {
            Some(TemperatureLevel::Elevated)
        } else if t > 50 {
            Some(TemperatureLevel::Critical)
        } else {
            Some(TemperatureLevel::Normal)
        },
        None => None,
    }
}

/// A view of the listing command.
#[derive(Debug, Clone, Copy, PartialEq, Eq, Structural)]
pub enum Overview {
    /// Every enclosure, each followed by its disks.
    Disks,
    /// The enclosures alone.
    Enclosures,
    /// The fans.
    Fans,
    /// Nothing was asked for.
    Nothing,
}

/// The view that the options of the listing command select: the disks take
/// precedence over the enclosures, and these over the fans.
pub fn enclosure_overview(enclosure: bool, disks: bool, fan: bool) -> (r: Overview)
    ensures
        r == if disks {
            Overview::Disks
        } else if enclosure {
            Overview::Enclosures
        } else if fan {
            Overview::Fans
        } else {
            Overview::Nothing
        },
{
    if disks {
        Overview::Disks
    } else if enclosure {
        Overview::Enclosures
    } else if fan {
        Overview::Fans
    } else {
        Overview::Nothing
    }
}

impl SortKey for Disk {
    /// A disk is listed by its slot.
    open spec fn key_text(&self) -> Seq<char> {
        self.slot@
    }

    fn sort_key(&self) -> (r: &str) {
        self.slot.as_str()
    }
}

/// The slots of the disks, by which the listing is ordered.
pub open spec fn slot_keys(disks: Seq<Disk>) -> Seq<Seq<char>> {
    disks.map_values(|d: Disk| d.slot@)
}

/// Orders the disks by slot, disks of the same slot as they stand: the
/// result lists their positions in that order.
pub fn disks_by_slot(disks: &Vec<Disk>) -> (order: Vec<usize>)
    ensures
        stable_order(slot_keys(disks@), order@),
{
    proof {
        assert(keys_of(disks@) =~= slot_keys(disks@));
    }
    sorted_by_key(disks)
}

/// The positions of `order` whose disk sits in the enclosure at `slot`, in
/// the order of `order`. A position that is none of `disks` is left out.
pub open spec fn listed_under(disks: Seq<DiskView>, order: Seq<usize>, slot: Seq<char>) -> Seq<
    usize,
>
    decreases order.len(),
{
    if order.len() == 0 {
        Seq::empty()
    } else {
        let rest = listed_under(disks, order.drop_last(), slot);
        let i = order.last();
        if i < disks.len() && disks[i as int].enclosure == slot {
            rest.push(i)
        } else {
            rest
        }
    }
}

/// Picks the disks to list under an enclosure: of the positions in `order`,
/// those of the disks whose enclosure address is the address of `enclosure`.
pub fn disks_of_enclosure(disks: &Vec<Disk>, order: &Vec<usize>, enclosure: &Enclosure) -> (r: Vec<
    usize,
>)
    ensures
        r@ == listed_under(disk_views(disks@), order@, enclosure.slot@),
        forall|k: int| 0 <= k < r@.len() ==> (#[trigger] r@[k]) < disks@.len(),
{
    let mut r: Vec<usize> = Vec::new();
    let mut k: usize = 0;
    let ghost all = disk_views(disks@);
    proof {
        assert(order@.take(0).len() == 0);
    }
    while k < order.len()
        invariant
            k <= order.len(),
            all == disk_views(disks@),
            r@ == listed_under(all, order@.take(k as int), enclosure.slot@),
            forall|j: int| 0 <= j < r@.len() ==> (#[trigger] r@[j]) < disks@.len(),
        decreases order.len() - k,
    {
        let i: usize = order[k];
        proof {
            assert(order@.take(k + 1).drop_last() =~= order@.take(k as int));
            assert(order@.take(k + 1).last() == i);
        }
        if i < disks.len() {
            proof {
                assert(all[i as int] == disks@[i as int]@);
            }
            if same_text(disks[i].enclosure.as_str(), enclosure.slot.as_str()) {
                r.push(i);
            }
        }
        k += 1;
    }
    proof {
        assert(order@.take(order@.len() as int) =~= order@);
    }
    r
}

/// Tells whether a disk has no block device node.
pub fn is_unmapped(disk: &Disk) -> (r: bool)
    ensures
        r == (disk.device_map@ == "NONE"@),
{
    same_text(disk.device_map.as_str(), "NONE")
}

} // verus!
