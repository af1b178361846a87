use vstd::prelude::*;

verus! {

/// Why no device could be chosen.
#[derive(Clone, Copy, Debug, PartialEq, Eq, Structural)]
pub enum DeviceError {
    /// The system reported no input device.
    NoDevicesFound,
    /// The choice does not name one of the listed devices.
    NotAValidSelection,
}

/// The devices to offer, as (path, name) pairs, given those that the system
/// reported: the same devices, last reported first; an error when there are
/// none.
pub fn get_devices(found: Vec<(String, String)>) -> (r: Result<Vec<(String, String)>, DeviceError>)
    ensures
        r is Ok <==> found.len() > 0,
        found.len() == 0 ==> r == Err::<Vec<(String, String)>, DeviceError>(DeviceError::NoDevicesFound),
        r matches Ok(list) ==> list.len() == found.len() && forall|j: int|
            0 <= j < list.len() ==> #[trigger] list@[j] == found@[found.len() - 1 - j],
{
    if found.len() == 0 {
        return Err(DeviceError::NoDevicesFound);
    }
    let ghost all = found@;
    let mut rest = found;
    let mut list: Vec<(String, String)> = Vec::new();
    while rest.len() > 0
        invariant
            list.len() + rest.len() == all.len(),
            rest@ == all.take(rest.len() as int),
            forall|j: int| 0 <= j < list.len() ==> #[trigger] list@[j] == all[all.len() - 1 - j],
        decreases rest.len(),
    {
        match rest.pop() {
            Some(dev) => list.push(dev),
            None => {},
        }
        assert(rest@ =~= all.take(rest.len() as int));
    }
    Ok(list)
}

/// The names of the listed devices, in order, for the user to choose from.
pub fn device_names(devices: &Vec<(String, String)>) -> (names: Vec<String>)
    ensures
        names.len() == devices.len(),
        forall|j: int| 0 <= j < names.len() ==> #[trigger] names@[j] == devices@[j].1,
{
    let mut names: Vec<String> = Vec::new();
    let mut i: usize = 0;
    while i < devices.len()
        invariant
            i <= devices.len(),
            names.len() == i,
            forall|j: int| 0 <= j < i ==> #[trigger] names@[j] == devices@[j].1,
        decreases devices.len() - i,
    {
        names.push(devices[i].1.clone());
        i = i + 1;
    }
    names
}

/// The path of the device that the user chose from `devices`, or an error
/// when the user chose none or a position past the end of the list.
pub fn select_device(devices: &Vec<(String, String)>, selection: Option<usize>) -> (r: Result<String, DeviceError>)
    ensures
        match selection {
            Some(i) => if i < devices.len() {
                r == Ok::<String, DeviceError>(devices@[i as int].0)
            } else {
                r == Err::<String, DeviceError>(DeviceError::NotAValidSelection)
            },
            None => r == Err::<String, DeviceError>(DeviceError::NotAValidSelection),
        },
{
    match selection {
        Some(i) => {
            if i < devices.len() {
                Ok(devices[i].0.clone())
            } else {
                Err(DeviceError::NotAValidSelection)
            }
        },
        None => Err(DeviceError::NotAValidSelection),
    }
}

/// Why a path cannot receive a new recording.
#[derive(Clone, Copy, Debug, PartialEq, Eq, Structural)]
pub enum PathError {
    /// The directory that would hold the file does not exist.
    InvalidOutputPath,
    /// A file is already there.
    OutputExists,
}

/// Accepts `output` as the place for a new recording when the directory that
/// would hold it exists (`parent_exists`) and nothing is there yet
/// (`!file_exists`); a missing directory is reported first.
pub fn validate_path(output: String, parent_exists: bool, file_exists: bool) -> (r: Result<String, PathError>)
    ensures
        !parent_exists ==> r == Err::<String, PathError>(PathError::InvalidOutputPath),
        parent_exists && file_exists ==> r == Err::<String, PathError>(PathError::OutputExists),
        parent_exists && !file_exists ==> r == Ok::<String, PathError>(output),
{
    if !parent_exists {
        return Err(PathError::InvalidOutputPath);
    }
    if file_exists {
        return Err(PathError::OutputExists);
    }
    Ok(output)
}

} // verus!
