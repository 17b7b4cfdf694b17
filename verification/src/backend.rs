use vstd::prelude::*;

verus! {

/// The display backend the screen is told to use before it starts: none
/// where the environment already names one, the kernel mode setting backend
/// on Linux (a Raspberry Pi without a desktop), and winit elsewhere.
pub fn backend_to_set(already_set: bool, on_linux: bool) -> (b: Option<&'static str>)
    ensures
        already_set ==> b is None,
        !already_set && on_linux ==> (b matches Some(s) && s@ == "linuxkms-noseat"@),
        !already_set && !on_linux ==> (b matches Some(s) && s@ == "winit"@),
{
    if !already_set {
        if on_linux {
            Some("linuxkms-noseat")
        } else {
            Some("winit")
        }
    } else {
        None
    }
}

} // verus!
