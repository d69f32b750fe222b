use vstd::prelude::*;

verus! {

/// A stored inventory cell of a character.
#[derive(Clone, Copy, Debug, PartialEq, Eq, Structural)]
pub struct DBItemInstance {
    pub character_id: u32,
    pub slot_id: u8,
    pub item: Option<u32>,
    pub enchant: Option<u32>,
}

/// What the character list shows of one equipped item.
#[derive(Clone, Copy, Debug, PartialEq, Eq, Structural)]
pub struct DBCharacterEquipmentDisplayInfo {
    pub slot_id: u8,
    pub inventory_type: Option<u8>,
    pub enchant: Option<u32>,
    pub displayid: Option<u32>,
}

/// What a realm connection knows of its peer once the handshake is done.
#[derive(Clone, Copy, Debug, PartialEq, Eq, Structural)]
pub struct ConnectionData {
    pub account_id: Option<u32>,
}

impl ConnectionData {
    pub fn new() -> (r: Self)
        ensures
            r.account_id is None,
    {
        ConnectionData { account_id: None }
    }

    pub fn is_authenticated(&self) -> (r: bool)
        ensures
            r == self.account_id is Some,
    {
        self.account_id.is_some()
    }
}

/// The name of each table of static data that the world needs.
pub open spec fn required_dbc_files() -> Seq<Seq<char>> {
    seq!["ChrRaces.dbc"@, "ChrClasses.dbc"@, "Map.dbc"@, "CharStartOutfit.dbc"@, "AreaTrigger.dbc"@]
}

/// A file named `name` is among `present`.
pub open spec fn has_file(present: Seq<String>, name: Seq<char>) -> bool {
    exists|j: int| 0 <= j < present.len() && #[trigger] present[j]@ == name
}

/// Whether the data directory exists and holds every required table, given whether the
/// directory exists and the names of the files found in it.
pub fn ensure_dbc(dir_exists: bool, present: &Vec<String>) -> (r: bool)
    ensures
        r == (dir_exists && forall|i: int| 0 <= i < required_dbc_files().len() ==> has_file(present@, #[trigger] required_dbc_files()[i])),
{
    if !dir_exists {
        return false;
    }
    let required: Vec<&str> = vec!["ChrRaces.dbc", "ChrClasses.dbc", "Map.dbc", "CharStartOutfit.dbc", "AreaTrigger.dbc"];
    proof {
        reveal_strlit("ChrRaces.dbc");
        reveal_strlit("ChrClasses.dbc");
        reveal_strlit("Map.dbc");
        reveal_strlit("CharStartOutfit.dbc");
        reveal_strlit("AreaTrigger.dbc");
        assert(required@.map_values(|s: &str| s@) =~= required_dbc_files());
    }
    let mut i: usize = 0;
    while i < required.len()
        invariant
            i <= required@.len(),
            required@.map_values(|s: &str| s@) == required_dbc_files(),
            forall|k: int| 0 <= k < i ==> has_file(present@, #[trigger] required_dbc_files()[k]),
        decreases required@.len() - i,
    {
        let mut found = false;
        let mut j: usize = 0;
        while j < present.len()
            invariant
                j <= present@.len(),
                i < required@.len(),
                found ==> has_file(present@, required@[i as int]@),
                !found ==> forall|m: int| 0 <= m < j ==> present@[m]@ != required@[i as int]@,
            decreases present@.len() - j,
        {
            if crate::realm::str_equal(present[j].as_str(), required[i]) {
                found = true;
            }
            j = j + 1;
        }
        assert(required@.map_values(|s: &str| s@)[i as int] == required@[i as int]@);
        if !found {
            assert(!has_file(present@, required_dbc_files()[i as int]));
            return false;
        }
        i = i + 1;
    }
    true
}

} // verus!
