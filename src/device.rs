use vstd::prelude::*;

verus! {

/// The output device to open.
#[derive(Clone, Copy, Debug, PartialEq, Eq, Structural)]
pub enum DeviceChoice {
    /// The device at this index of the enumerated list.
    Listed(usize),
    /// The system's default output device.
    SystemDefault,
}

/// Whether the `j`-th enumerated device reports the name `wanted`. A device
/// whose name could not be read has `None` there.
pub open spec fn device_named(names: Seq<Option<String>>, j: int, wanted: Seq<char>) -> bool {
    names[j] is Some && names[j]->Some_0@ == wanted
}

/// Resolves a requested device name against the enumerated output devices:
/// the first device of that name, or the system default where no name is
/// given or no device carries it.
pub fn get_device_from_name(names: &Vec<Option<String>>, name: &Option<String>) -> (r: DeviceChoice)
    ensures
        match r {
            DeviceChoice::Listed(i) => {
                &&& name is Some
                &&& i < names@.len()
                &&& device_named(names@, i as int, name->Some_0@)
                &&& forall|j: int| 0 <= j < i ==> !device_named(names@, j, name->Some_0@)
            },
            DeviceChoice::SystemDefault => name is None || forall|j: int|
                0 <= j < names@.len() ==> !device_named(names@, j, name->Some_0@),
        },
{
    let wanted = match name {
        Some(w) => w,
        None => {
            return DeviceChoice::SystemDefault;
        },
    };
    let mut i: usize = 0;
    while i < names.len()
        invariant
            i <= names@.len(),
            name is Some,
            name->Some_0@ == wanted@,
            forall|j: int| 0 <= j < i ==> !device_named(names@, j, wanted@),
        decreases names@.len() - i,
    {
        match &names[i] {
            Some(n) => {
                if *n == *wanted {
                    return DeviceChoice::Listed(i);
                }
            },
            None => {},
        }
        i = i + 1;
    }
    DeviceChoice::SystemDefault
}

} // verus!
