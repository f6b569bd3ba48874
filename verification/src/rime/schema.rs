use vstd::prelude::*;

use crate::rime::patch::strings_view;

verus! {

/// An input schema in the schema list.
pub struct RimeSchema {
    pub schema_id: String,
    pub enabled: bool,
    pub name: String,
    pub version: String,
    pub dependencies: Vec<String>,
}

impl RimeSchema {
    /// An enabled schema with only its id known.
    pub fn new(schema_id: String) -> (s: Self)
        ensures
            s.schema_id@ == schema_id@,
            s.enabled,
            s.name@ == Seq::<char>::empty(),
            s.version@ == Seq::<char>::empty(),
            strings_view(s.dependencies@) == Seq::<Seq<char>>::empty(),
            s.dependencies@.len() == 0,
    {
        let deps: Vec<String> = Vec::new();
        assert(strings_view(deps@) =~= Seq::<Seq<char>>::empty());
        RimeSchema { schema_id, enabled: true, name: String::new(), version: String::new(), dependencies: deps }
    }
}

} // verus!
