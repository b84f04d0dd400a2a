//! The table that maps the object attributes of a task to data items.

use vstd::prelude::*;
use vstd::string::*;
use crate::text::{lower, lowercase_of, str_eq};

verus! {

/// One entry of the list of master objects: the object, its name and the document
/// that holds its attributes.
#[derive(Debug)]
pub struct OadItem {
    pub master_oad: String,
    pub name: String,
    pub file_path: String,
}

/// One mapping: the attribute, the data item that it stands for, and the part of
/// the item's data that it takes.
#[derive(Debug)]
pub struct ListItem {
    pub v_oad: String,
    pub item_07: String,
    pub start_pos: u32,
    pub len_07: u32,
    pub comment: Option<String>,
}

/// The named lists of mappings of one master object, in document order.
#[derive(Debug)]
pub struct SubConfig {
    pub lists: Vec<(String, Vec<ListItem>)>,
}

/// The master objects and, for each that has one, its lists of mappings.
#[derive(Debug)]
pub struct CompleteConfig {
    pub oad_list: Vec<OadItem>,
    pub sub_configs: Vec<(String, SubConfig)>,
}

/// The position of the first master object that equals `master` up to case.
pub open spec fn index_of_master(l: Seq<(String, SubConfig)>, master: Seq<char>) -> Option<int>
    decreases l.len(),
{
    if l.len() == 0 {
        None
    } else if lowercase_of(l[0].0@) == lowercase_of(master) {
        Some(0)
    } else {
        match index_of_master(l.drop_first(), master) {
            Some(i) => Some(i + 1),
            None => None,
        }
    }
}

/// The position of the first mapping whose attribute equals `v_oad` up to case.
pub open spec fn index_of_voad(l: Seq<ListItem>, v_oad: Seq<char>) -> Option<int>
    decreases l.len(),
{
    if l.len() == 0 {
        None
    } else if lowercase_of(l[0].v_oad@) == lowercase_of(v_oad) {
        Some(0)
    } else {
        match index_of_voad(l.drop_first(), v_oad) {
            Some(i) => Some(i + 1),
            None => None,
        }
    }
}

/// The first mapping of the lists, read in order, whose attribute equals `v_oad`
/// up to case.
pub open spec fn find_voad(lists: Seq<(String, Vec<ListItem>)>, v_oad: Seq<char>) -> Option<
    ListItem,
>
    decreases lists.len(),
{
    if lists.len() == 0 {
        None
    } else {
        match index_of_voad(lists[0].1@, v_oad) {
            Some(i) => Some(lists[0].1@[i]),
            None => find_voad(lists.drop_first(), v_oad),
        }
    }
}

impl ListItem {
    /// A copy of the mapping.
    pub fn duplicate(&self) -> (r: ListItem)
        ensures
            r.v_oad@ == self.v_oad@,
            r.item_07@ == self.item_07@,
            r.start_pos == self.start_pos,
            r.len_07 == self.len_07,
            crate::xmlconfig::text_view(r.comment) == crate::xmlconfig::text_view(self.comment),
    {
        ListItem {
            v_oad: self.v_oad.clone(),
            item_07: self.item_07.clone(),
            start_pos: self.start_pos,
            len_07: self.len_07,
            comment: match &self.comment {
                Some(c) => Some(c.clone()),
                None => None,
            },
        }
    }
}

/// The position of the first mapping whose attribute equals `v_oad` up to case.
pub fn find_voad_index(items: &Vec<ListItem>, wanted: &str) -> (r: Option<usize>)
    ensures
        r is Some == index_of_voad(items@, wanted@) is Some,
        r is Some ==> r.unwrap() as int == index_of_voad(items@, wanted@).unwrap() && r.unwrap()
            < items@.len(),
{
    let low = lower(wanted);
    let mut i: usize = 0;
    assert(items@.subrange(0, items@.len() as int) =~= items@);
    while i < items.len()
        invariant
            i <= items.len(),
            low@ == lowercase_of(wanted@),
            index_of_voad(items@, wanted@) == (match index_of_voad(
                items@.subrange(i as int, items@.len() as int),
                wanted@,
            ) {
                Some(k) => Some(k + i),
                None => None,
            }),
        decreases items.len() - i,
    {
        let ghost rest = items@.subrange(i as int, items@.len() as int);
        assert(rest[0] == items@[i as int]);
        let cur = lower(items[i].v_oad.as_str());
        if str_eq(cur.as_str(), low.as_str()) {
            return Some(i);
        }
        assert(rest.drop_first() =~= items@.subrange(i + 1, items@.len() as int));
        i += 1;
    }
    None
}

impl CompleteConfig {
    /// The lists of the first master object that equals `master_oad` up to case.
    pub fn get_config_by_master_oad(&self, master_oad: &str) -> (r: Option<&SubConfig>)
        ensures
            r is Some == index_of_master(self.sub_configs@, master_oad@) is Some,
            r is Some ==> *r.unwrap() == self.sub_configs@[index_of_master(
                self.sub_configs@,
                master_oad@,
            ).unwrap()].1,
    {
        let low = lower(master_oad);
        let ghost l = self.sub_configs@;
        let mut i: usize = 0;
        assert(l.subrange(0, l.len() as int) =~= l);
        while i < self.sub_configs.len()
            invariant
                i <= self.sub_configs.len(),
                l == self.sub_configs@,
                low@ == lowercase_of(master_oad@),
                index_of_master(l, master_oad@) == (match index_of_master(
                    l.subrange(i as int, l.len() as int),
                    master_oad@,
                ) {
                    Some(k) => Some(k + i),
                    None => None,
                }),
            decreases self.sub_configs.len() - i,
        {
            let ghost rest = l.subrange(i as int, l.len() as int);
            assert(rest[0] == l[i as int]);
            let cur = lower(self.sub_configs[i].0.as_str());
            if str_eq(cur.as_str(), low.as_str()) {
                return Some(&self.sub_configs[i].1);
            }
            assert(rest.drop_first() =~= l.subrange(i + 1, l.len() as int));
            i += 1;
        }
        None
    }
}

/// The holder of the table once it is loaded.
pub struct TaskOadConfigManager {
    pub config: Option<CompleteConfig>,
}

impl TaskOadConfigManager {
    /// A holder without a table.
    pub fn new() -> (r: Self)
        ensures
            r.config is None,
    {
        TaskOadConfigManager { config: None }
    }

    /// Puts a table in place of what was loaded before.
    pub fn init(&mut self, config: CompleteConfig)
        ensures
            final(self).config == Some(config),
    {
        self.config = Some(config);
    }

    /// The mapping that an attribute of a master object resolves to.
    pub open spec fn voad(&self, master_oad: Seq<char>, v_oad: Seq<char>) -> Option<ListItem> {
        match self.config {
            None => None,
            Some(c) => match index_of_master(c.sub_configs@, master_oad) {
                None => None,
                Some(i) => find_voad(c.sub_configs@[i].1.lists@, v_oad),
            },
        }
    }

    /// A copy of the mapping that an attribute of a master object resolves to: the
    /// first mapping, in the lists of the first master object that equals
    /// `master_oad` up to case, whose attribute equals `v_oad` up to case.
    pub fn get_voad(&self, master_oad: &str, v_oad: &str) -> (r: Option<ListItem>)
        ensures
            r is Some == self.voad(master_oad@, v_oad@) is Some,
            r is Some ==> r.unwrap().v_oad@ == self.voad(master_oad@, v_oad@).unwrap().v_oad@
                && r.unwrap().item_07@ == self.voad(master_oad@, v_oad@).unwrap().item_07@
                && r.unwrap().start_pos == self.voad(master_oad@, v_oad@).unwrap().start_pos
                && r.unwrap().len_07 == self.voad(master_oad@, v_oad@).unwrap().len_07
                && crate::xmlconfig::text_view(r.unwrap().comment) == crate::xmlconfig::text_view(
                self.voad(master_oad@, v_oad@).unwrap().comment,
            ),
    {
        match &self.config {
            None => None,
            Some(c) => match c.get_config_by_master_oad(master_oad) {
                None => None,
                Some(sub) => {
                    let ghost lists = sub.lists@;
                    let mut i: usize = 0;
                    assert(lists.subrange(0, lists.len() as int) =~= lists);
                    while i < sub.lists.len()
                        invariant
                            i <= sub.lists.len(),
                            lists == sub.lists@,
                            find_voad(lists, v_oad@) == find_voad(
                                lists.subrange(i as int, lists.len() as int),
                                v_oad@,
                            ),
                            self.voad(master_oad@, v_oad@) == find_voad(lists, v_oad@),
                        decreases sub.lists.len() - i,
                    {
                        let ghost rest = lists.subrange(i as int, lists.len() as int);
                        assert(rest[0] == lists[i as int]);
                        match find_voad_index(&sub.lists[i].1, v_oad) {
                            Some(k) => {
                                return Some(sub.lists[i].1[k].duplicate());
                            },
                            None => {},
                        }
                        assert(rest.drop_first() =~= lists.subrange(i + 1, lists.len() as int));
                        i += 1;
                    }
                    None
                },
            },
        }
    }
}

} // verus!
