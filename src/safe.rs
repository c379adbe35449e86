//! The same checks, for callers that only want the message of a rejection,
//! and the tag check without components.
use vstd::prelude::*;

use crate::grammar::{split_first, valid_instance_key, valid_instance_name, valid_snap_name};
use crate::snap::{
    instance_key_fault, instance_name_fault, sc_instance_key_validate, sc_instance_name_validate,
    sc_snap_drop_instance_key, sc_snap_name_validate, sc_snap_split_instance_name,
    snap_name_fault,
};
use crate::tag::{is_hook_tag, sc_is_hook_security_tag, sc_security_tag_validate, security_tag_valid};
use crate::text::opt_view;

verus! {

/// Checks an instance name; a rejection carries its message alone.
pub fn sc_instance_name_validate_safe(instance_name: &str) -> (r: Result<(), &str>)
    ensures
        r is Ok <==> valid_instance_name(instance_name@),
        r is Err ==> instance_name_fault(instance_name@) is Some
            && instance_name_fault(instance_name@)->Some_0.1 == r->Err_0@,
{
    match sc_instance_name_validate(instance_name) {
        Ok(()) => Ok(()),
        Err(e) => Err(e.msg),
    }
}

/// Checks an instance key; a rejection carries its message alone.
pub fn sc_instance_key_validate_safe(instance_key: &str) -> (r: Result<(), &str>)
    ensures
        r is Ok <==> valid_instance_key(instance_key@),
        r is Err ==> instance_key_fault(instance_key@) == Some(r->Err_0@),
{
    match sc_instance_key_validate(instance_key) {
        Ok(()) => Ok(()),
        Err(e) => Err(e.msg),
    }
}

/// Checks a package name; a rejection carries its message alone.
pub fn sc_snap_name_validate_safe(snap_name: &str) -> (r: Result<(), &str>)
    ensures
        r is Ok <==> valid_snap_name(snap_name@),
        r is Err ==> snap_name_fault(snap_name@) == Some(r->Err_0@),
{
    match sc_snap_name_validate(snap_name) {
        Ok(()) => Ok(()),
        Err(e) => Err(e.msg),
    }
}

/// Whether `security_tag` is the tag of a hook.
pub fn sc_is_hook_security_tag_safe(security_tag: &str) -> (r: bool)
    ensures
        r == is_hook_tag(security_tag@),
{
    sc_is_hook_security_tag(security_tag)
}

/// Whether `security_tag` is a tag of an application or hook of the package
/// instance `snap_name`, with no component.
pub fn sc_security_tag_validate_safe(security_tag: &str, snap_name: &str) -> (r: bool)
    ensures
        r == security_tag_valid(security_tag@, snap_name@, None),
{
    sc_security_tag_validate(security_tag, snap_name, None)
}

/// Splits an instance name at its first `_`, without checking either part.
pub fn sc_snap_split_instance_name_safe(instance_name: &str) -> (r: (&str, Option<&str>))
    ensures
        (r.0@, opt_view(r.1)) == split_first(instance_name@, '_'),
{
    sc_snap_split_instance_name(instance_name)
}

/// The package name of an instance name: all before the first `_`.
pub fn sc_snap_drop_instance_key_safe(instance_name: &str) -> (r: Result<&str, &str>)
    ensures
        r is Ok,
        r->Ok_0@ == split_first(instance_name@, '_').0,
{
    sc_snap_drop_instance_key(instance_name)
}

} // verus!
