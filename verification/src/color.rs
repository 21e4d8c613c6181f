use vstd::hash_map::StringHashMap;
use vstd::prelude::*;

verus! {

/// A terminal colour, by its red, green and blue components.
#[derive(Clone, Copy, Debug, PartialEq, Eq, Structural)]
pub struct Color {
    pub red: u8,
    pub green: u8,
    pub blue: u8,
}

/// The colour with the given components.
pub open spec fn rgb(red: u8, green: u8, blue: u8) -> Color {
    Color { red, green, blue }
}

/// The colours handed out, in the order in which new names receive them.
pub open spec fn palette() -> Seq<Color> {
    seq![
        rgb(2, 63, 165),
        rgb(125, 135, 185),
        rgb(187, 119, 132),
        rgb(142, 6, 59),
        rgb(74, 111, 227),
        rgb(133, 149, 225),
        rgb(181, 187, 227),
        rgb(230, 175, 185),
        rgb(224, 123, 145),
        rgb(211, 63, 106),
        rgb(17, 198, 56),
        rgb(141, 213, 147),
        rgb(240, 185, 141),
        rgb(239, 151, 8),
        rgb(15, 207, 192),
        rgb(156, 222, 214),
        rgb(247, 156, 212),
    ]
}

/// Hands out a colour per name: a name that was seen before keeps its colour, a new one gets
/// the next colour of the palette, which starts over when it is used up.
pub struct ColorPicker {
    color_map: StringHashMap<usize>,
    colors: Vec<Color>,
    color_index: usize,
}

/// What a picker has handed out: for each name that was seen, the position of its colour in the
/// palette, and the position of the colour for the next new name.
#[verifier::ext_equal]
pub struct PickerModel {
    pub assigned: Map<Seq<char>, nat>,
    pub next: nat,
}

impl PickerModel {
    /// Nothing has been handed out.
    pub open spec fn fresh() -> PickerModel {
        PickerModel { assigned: Map::empty(), next: 0 }
    }

    /// All positions lie in the palette.
    pub open spec fn wf(self) -> bool {
        &&& self.next < palette().len()
        &&& forall|name: Seq<char>| #[trigger]
            self.assigned.contains_key(name) ==> self.assigned[name] < palette().len()
    }

    /// The colour that `name` gets.
    pub open spec fn color(self, name: Seq<char>) -> Color {
        if self.assigned.contains_key(name) {
            palette()[self.assigned[name] as int]
        } else {
            palette()[self.next as int]
        }
    }

    /// What has been handed out once `name` has its colour.
    pub open spec fn after(self, name: Seq<char>) -> PickerModel {
        if self.assigned.contains_key(name) {
            self
        } else {
            PickerModel {
                assigned: self.assigned.insert(name, self.next),
                next: if self.next + 1 == palette().len() {
                    0
                } else {
                    self.next + 1
                },
            }
        }
    }

    /// What has been handed out once these names have their colours, one after the other.
    pub open spec fn after_all(self, names: Seq<Seq<char>>) -> PickerModel
        decreases names.len(),
    {
        if names.len() == 0 {
            self
        } else {
            self.after_all(names.drop_last()).after(names.last())
        }
    }
}

impl View for ColorPicker {
    type V = PickerModel;

    closed spec fn view(&self) -> PickerModel {
        PickerModel {
            assigned: self.color_map@.map_values(|index: usize| index as nat),
            next: self.color_index as nat,
        }
    }
}

impl ColorPicker {
    /// The picker holds the palette, and every position it holds lies in it.
    pub closed spec fn wf(&self) -> bool {
        self.colors@ == palette() && self@.wf()
    }

    /// A picker that has seen no name.
    pub fn new() -> (picker: ColorPicker)
        ensures
            picker.wf(),
            picker@ == PickerModel::fresh(),
    {
        let picker = ColorPicker {
            color_map: StringHashMap::new(),
            colors: vec![
                Color { red: 2, green: 63, blue: 165 },
                Color { red: 125, green: 135, blue: 185 },
                Color { red: 187, green: 119, blue: 132 },
                Color { red: 142, green: 6, blue: 59 },
                Color { red: 74, green: 111, blue: 227 },
                Color { red: 133, green: 149, blue: 225 },
                Color { red: 181, green: 187, blue: 227 },
                Color { red: 230, green: 175, blue: 185 },
                Color { red: 224, green: 123, blue: 145 },
                Color { red: 211, green: 63, blue: 106 },
                Color { red: 17, green: 198, blue: 56 },
                Color { red: 141, green: 213, blue: 147 },
                Color { red: 240, green: 185, blue: 141 },
                Color { red: 239, green: 151, blue: 8 },
                Color { red: 15, green: 207, blue: 192 },
                Color { red: 156, green: 222, blue: 214 },
                Color { red: 247, green: 156, blue: 212 },
            ],
            color_index: 0,
        };
        assert(picker@ == PickerModel::fresh());
        picker
    }

    /// The colour of `name`.
    pub fn get(&mut self, name: &str) -> (color: Color)
        requires
            old(self).wf(),
        ensures
            final(self).wf(),
            color == old(self)@.color(name@),
            final(self)@ == old(self)@.after(name@),
    {
        match self.color_map.get(name) {
            Some(index) => {
                assert(self@.assigned.contains_key(name@));
                self.colors[*index]
            },
            None => {
                let old_color_index: usize = self.color_index;
                self.color_map.insert(name.to_owned(), old_color_index);
                assert(self.colors@.len() == 17);
                self.color_index = (old_color_index + 1) % self.colors.len();
                assert(self.color_index == (old_color_index + 1) % 17);
                assert(self@ == old(self)@.after(name@));
                self.colors[old_color_index]
            },
        }
    }
}

/// No colour stands in the palette twice.
proof fn lemma_palette_distinct()
    ensures
        palette().no_duplicates(),
{
}

/// What is handed out stays within the palette, and a name keeps its position.
proof fn lemma_after_all(picker: PickerModel, names: Seq<Seq<char>>)
    requires
        picker.wf(),
    ensures
        picker.after_all(names).wf(),
        forall|name: Seq<char>| #[trigger]
            picker.assigned.contains_key(name) ==> picker.after_all(names).assigned.contains_key(
                name,
            ) && picker.after_all(names).assigned[name] == picker.assigned[name],
    decreases names.len(),
{
    if names.len() > 0 {
        lemma_after_all(picker, names.drop_last());
    }
}

/// A name keeps its colour: whatever names are asked for in between, it gets the one that it got
/// first.
pub proof fn law_color_is_kept(picker: PickerModel, name: Seq<char>, others: Seq<Seq<char>>)
    requires
        picker.wf(),
    ensures
        picker.after(name).after_all(others).color(name) == picker.color(name),
{
    lemma_after_all(picker.after(name), others);
    assert(picker.after(name).assigned.contains_key(name));
}

/// The next position is the number of different names that were asked for, counted round the
/// palette: to ask for a name again does not move it. Exactly those names have a colour.
pub proof fn law_next_color_counts_names(names: Seq<Seq<char>>)
    ensures
        PickerModel::fresh().after_all(names).assigned.dom() == names.to_set(),
        PickerModel::fresh().after_all(names).next == names.to_set().len() % palette().len(),
    decreases names.len(),
{
    broadcast use vstd::seq_lib::seq_to_set_is_finite;

    assert(palette().len() == 17);
    if names.len() == 0 {
        assert(names.to_set() == Set::<Seq<char>>::empty());
    } else {
        let shorter = names.drop_last();
        let last = names.last();
        law_next_color_counts_names(shorter);
        assert(names == shorter.push(last));
        assert forall|name: Seq<char>| names.contains(name) <==> shorter.contains(name) || name
            == last by {
            if names.contains(name) {
                let i = names.index_of(name);
                assert(i < shorter.len() ==> shorter[i] == name);
            }
            if shorter.contains(name) {
                let i = shorter.index_of(name);
                assert(names[i] == name);
            }
            assert(names[names.len() - 1] == last);
        }
        assert(names.to_set() == shorter.to_set().insert(last));
        if shorter.contains(last) {
            assert(names.to_set() == shorter.to_set());
        }
    }
}

/// A new name gets the colour whose position is the number of different names before it, counted
/// round the palette.
pub proof fn law_new_name_gets_next_color(names: Seq<Seq<char>>, name: Seq<char>)
    requires
        !names.contains(name),
    ensures
        PickerModel::fresh().after_all(names).color(name) == palette()[(names.to_set().len()
            % palette().len()) as int],
{
    law_next_color_counts_names(names);
    assert(!names.to_set().contains(name));
}

/// New names get the colours of the palette in turn, which starts over when it is used up.
pub proof fn law_colors_in_turn(names: Seq<Seq<char>>, i: int)
    requires
        names.no_duplicates(),
        0 <= i < names.len(),
    ensures
        PickerModel::fresh().after_all(names.take(i)).color(names[i]) == palette()[i % (
        palette().len() as int)],
{
    let before = names.take(i);
    assert(before.no_duplicates());
    before.unique_seq_to_set();
    if before.contains(names[i]) {
        let k = before.index_of(names[i]);
        assert(names[k] == before[k]);
    }
    law_new_name_gets_next_color(before, names[i]);
}

/// As long as there are no more names than colours, no two names have one colour.
pub proof fn law_colors_differ(names: Seq<Seq<char>>, i: int, j: int)
    requires
        names.no_duplicates(),
        names.len() <= palette().len(),
        0 <= i < j < names.len(),
    ensures
        PickerModel::fresh().after_all(names.take(i)).color(names[i])
            != PickerModel::fresh().after_all(names.take(j)).color(names[j]),
{
    law_colors_in_turn(names, i);
    law_colors_in_turn(names, j);
    lemma_palette_distinct();
    assert(palette().len() == 17);
    assert(palette()[i] != palette()[j]);
}

} // verus!
