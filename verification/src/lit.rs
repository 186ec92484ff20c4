//! Byte sequences of the grammar's fixed tokens.
//!
//! Each token has a ghost constant (`lit_*`), the sequence the grammar
//! specification compares against, and an executable builder (`tok_*`) that
//! returns the same bytes as a vector.

use vstd::prelude::*;

use vstd::slice::slice_to_vec;

verus! {

/// The bytes of `true`.
pub open spec fn lit_true() -> Seq<u8> {
    seq![116u8, 114u8, 117u8, 101u8]
}

pub fn tok_true() -> (r: Vec<u8>)
    ensures
        r@ == lit_true(),
{
    let a: [u8; 4] = [116, 114, 117, 101];
    let r = slice_to_vec(a.as_slice());
    proof {
        assert(r@ =~= lit_true());
    }
    r
}

/// The bytes of `false`.
pub open spec fn lit_false() -> Seq<u8> {
    seq![102u8, 97u8, 108u8, 115u8, 101u8]
}

pub fn tok_false() -> (r: Vec<u8>)
    ensures
        r@ == lit_false(),
{
    let a: [u8; 5] = [102, 97, 108, 115, 101];
    let r = slice_to_vec(a.as_slice());
    proof {
        assert(r@ =~= lit_false());
    }
    r
}

/// The bytes of `LookAt`.
pub open spec fn lit_look_at() -> Seq<u8> {
    seq![76u8, 111u8, 111u8, 107u8, 65u8, 116u8]
}

pub fn tok_look_at() -> (r: Vec<u8>)
    ensures
        r@ == lit_look_at(),
{
    let a: [u8; 6] = [76, 111, 111, 107, 65, 116];
    let r = slice_to_vec(a.as_slice());
    proof {
        assert(r@ =~= lit_look_at());
    }
    r
}

/// The bytes of `Camera`.
pub open spec fn lit_camera() -> Seq<u8> {
    seq![67u8, 97u8, 109u8, 101u8, 114u8, 97u8]
}

pub fn tok_camera() -> (r: Vec<u8>)
    ensures
        r@ == lit_camera(),
{
    let a: [u8; 6] = [67, 97, 109, 101, 114, 97];
    let r = slice_to_vec(a.as_slice());
    proof {
        assert(r@ =~= lit_camera());
    }
    r
}

/// The bytes of `Sampler`.
pub open spec fn lit_sampler() -> Seq<u8> {
    seq![83u8, 97u8, 109u8, 112u8, 108u8, 101u8, 114u8]
}

pub fn tok_sampler() -> (r: Vec<u8>)
    ensures
        r@ == lit_sampler(),
{
    let a: [u8; 7] = [83, 97, 109, 112, 108, 101, 114];
    let r = slice_to_vec(a.as_slice());
    proof {
        assert(r@ =~= lit_sampler());
    }
    r
}

/// The bytes of `Integrator`.
pub open spec fn lit_integrator() -> Seq<u8> {
    seq![73u8, 110u8, 116u8, 101u8, 103u8, 114u8, 97u8, 116u8, 111u8, 114u8]
}

pub fn tok_integrator() -> (r: Vec<u8>)
    ensures
        r@ == lit_integrator(),
{
    let a: [u8; 10] = [73, 110, 116, 101, 103, 114, 97, 116, 111, 114];
    let r = slice_to_vec(a.as_slice());
    proof {
        assert(r@ =~= lit_integrator());
    }
    r
}

/// The bytes of `Film`.
pub open spec fn lit_film() -> Seq<u8> {
    seq![70u8, 105u8, 108u8, 109u8]
}

pub fn tok_film() -> (r: Vec<u8>)
    ensures
        r@ == lit_film(),
{
    let a: [u8; 4] = [70, 105, 108, 109];
    let r = slice_to_vec(a.as_slice());
    proof {
        assert(r@ =~= lit_film());
    }
    r
}

/// The bytes of `WorldBegin`.
pub open spec fn lit_world_begin() -> Seq<u8> {
    seq![87u8, 111u8, 114u8, 108u8, 100u8, 66u8, 101u8, 103u8, 105u8, 110u8]
}

pub fn tok_world_begin() -> (r: Vec<u8>)
    ensures
        r@ == lit_world_begin(),
{
    let a: [u8; 10] = [87, 111, 114, 108, 100, 66, 101, 103, 105, 110];
    let r = slice_to_vec(a.as_slice());
    proof {
        assert(r@ =~= lit_world_begin());
    }
    r
}

/// The bytes of `WorldEnd`.
pub open spec fn lit_world_end() -> Seq<u8> {
    seq![87u8, 111u8, 114u8, 108u8, 100u8, 69u8, 110u8, 100u8]
}

pub fn tok_world_end() -> (r: Vec<u8>)
    ensures
        r@ == lit_world_end(),
{
    let a: [u8; 8] = [87, 111, 114, 108, 100, 69, 110, 100];
    let r = slice_to_vec(a.as_slice());
    proof {
        assert(r@ =~= lit_world_end());
    }
    r
}

/// The bytes of `AttributeBegin`.
pub open spec fn lit_attribute_begin() -> Seq<u8> {
    seq![65u8, 116u8, 116u8, 114u8, 105u8, 98u8, 117u8, 116u8, 101u8, 66u8, 101u8, 103u8, 105u8, 110u8]
}

pub fn tok_attribute_begin() -> (r: Vec<u8>)
    ensures
        r@ == lit_attribute_begin(),
{
    let a: [u8; 14] = [65, 116, 116, 114, 105, 98, 117, 116, 101, 66, 101, 103, 105, 110];
    let r = slice_to_vec(a.as_slice());
    proof {
        assert(r@ =~= lit_attribute_begin());
    }
    r
}

/// The bytes of `AttributeEnd`.
pub open spec fn lit_attribute_end() -> Seq<u8> {
    seq![65u8, 116u8, 116u8, 114u8, 105u8, 98u8, 117u8, 116u8, 101u8, 69u8, 110u8, 100u8]
}

pub fn tok_attribute_end() -> (r: Vec<u8>)
    ensures
        r@ == lit_attribute_end(),
{
    let a: [u8; 12] = [65, 116, 116, 114, 105, 98, 117, 116, 101, 69, 110, 100];
    let r = slice_to_vec(a.as_slice());
    proof {
        assert(r@ =~= lit_attribute_end());
    }
    r
}

/// The bytes of `LightSource`.
pub open spec fn lit_light_source() -> Seq<u8> {
    seq![76u8, 105u8, 103u8, 104u8, 116u8, 83u8, 111u8, 117u8, 114u8, 99u8, 101u8]
}

pub fn tok_light_source() -> (r: Vec<u8>)
    ensures
        r@ == lit_light_source(),
{
    let a: [u8; 11] = [76, 105, 103, 104, 116, 83, 111, 117, 114, 99, 101];
    let r = slice_to_vec(a.as_slice());
    proof {
        assert(r@ =~= lit_light_source());
    }
    r
}

/// The bytes of `Material`.
pub open spec fn lit_material() -> Seq<u8> {
    seq![77u8, 97u8, 116u8, 101u8, 114u8, 105u8, 97u8, 108u8]
}

pub fn tok_material() -> (r: Vec<u8>)
    ensures
        r@ == lit_material(),
{
    let a: [u8; 8] = [77, 97, 116, 101, 114, 105, 97, 108];
    let r = slice_to_vec(a.as_slice());
    proof {
        assert(r@ =~= lit_material());
    }
    r
}

/// The bytes of `Shape`.
pub open spec fn lit_shape() -> Seq<u8> {
    seq![83u8, 104u8, 97u8, 112u8, 101u8]
}

pub fn tok_shape() -> (r: Vec<u8>)
    ensures
        r@ == lit_shape(),
{
    let a: [u8; 5] = [83, 104, 97, 112, 101];
    let r = slice_to_vec(a.as_slice());
    proof {
        assert(r@ =~= lit_shape());
    }
    r
}

/// The bytes of `Translate`.
pub open spec fn lit_translate() -> Seq<u8> {
    seq![84u8, 114u8, 97u8, 110u8, 115u8, 108u8, 97u8, 116u8, 101u8]
}

pub fn tok_translate() -> (r: Vec<u8>)
    ensures
        r@ == lit_translate(),
{
    let a: [u8; 9] = [84, 114, 97, 110, 115, 108, 97, 116, 101];
    let r = slice_to_vec(a.as_slice());
    proof {
        assert(r@ =~= lit_translate());
    }
    r
}

/// The bytes of `Texture`.
pub open spec fn lit_texture() -> Seq<u8> {
    seq![84u8, 101u8, 120u8, 116u8, 117u8, 114u8, 101u8]
}

pub fn tok_texture() -> (r: Vec<u8>)
    ensures
        r@ == lit_texture(),
{
    let a: [u8; 7] = [84, 101, 120, 116, 117, 114, 101];
    let r = slice_to_vec(a.as_slice());
    proof {
        assert(r@ =~= lit_texture());
    }
    r
}

/// The bytes of `bool`.
pub open spec fn lit_tag_bool() -> Seq<u8> {
    seq![98u8, 111u8, 111u8, 108u8]
}

pub fn tok_tag_bool() -> (r: Vec<u8>)
    ensures
        r@ == lit_tag_bool(),
{
    let a: [u8; 4] = [98, 111, 111, 108];
    let r = slice_to_vec(a.as_slice());
    proof {
        assert(r@ =~= lit_tag_bool());
    }
    r
}

/// The bytes of `float`.
pub open spec fn lit_tag_float() -> Seq<u8> {
    seq![102u8, 108u8, 111u8, 97u8, 116u8]
}

pub fn tok_tag_float() -> (r: Vec<u8>)
    ensures
        r@ == lit_tag_float(),
{
    let a: [u8; 5] = [102, 108, 111, 97, 116];
    let r = slice_to_vec(a.as_slice());
    proof {
        assert(r@ =~= lit_tag_float());
    }
    r
}

/// The bytes of `integer`.
pub open spec fn lit_tag_integer() -> Seq<u8> {
    seq![105u8, 110u8, 116u8, 101u8, 103u8, 101u8, 114u8]
}

pub fn tok_tag_integer() -> (r: Vec<u8>)
    ensures
        r@ == lit_tag_integer(),
{
    let a: [u8; 7] = [105, 110, 116, 101, 103, 101, 114];
    let r = slice_to_vec(a.as_slice());
    proof {
        assert(r@ =~= lit_tag_integer());
    }
    r
}

/// The bytes of `string`.
pub open spec fn lit_tag_string() -> Seq<u8> {
    seq![115u8, 116u8, 114u8, 105u8, 110u8, 103u8]
}

pub fn tok_tag_string() -> (r: Vec<u8>)
    ensures
        r@ == lit_tag_string(),
{
    let a: [u8; 6] = [115, 116, 114, 105, 110, 103];
    let r = slice_to_vec(a.as_slice());
    proof {
        assert(r@ =~= lit_tag_string());
    }
    r
}

/// The bytes of `point`.
pub open spec fn lit_tag_point() -> Seq<u8> {
    seq![112u8, 111u8, 105u8, 110u8, 116u8]
}

pub fn tok_tag_point() -> (r: Vec<u8>)
    ensures
        r@ == lit_tag_point(),
{
    let a: [u8; 5] = [112, 111, 105, 110, 116];
    let r = slice_to_vec(a.as_slice());
    proof {
        assert(r@ =~= lit_tag_point());
    }
    r
}

/// The bytes of `rgb`.
pub open spec fn lit_tag_rgb() -> Seq<u8> {
    seq![114u8, 103u8, 98u8]
}

pub fn tok_tag_rgb() -> (r: Vec<u8>)
    ensures
        r@ == lit_tag_rgb(),
{
    let a: [u8; 3] = [114, 103, 98];
    let r = slice_to_vec(a.as_slice());
    proof {
        assert(r@ =~= lit_tag_rgb());
    }
    r
}

/// The bytes of `texture`.
pub open spec fn lit_tag_texture() -> Seq<u8> {
    seq![116u8, 101u8, 120u8, 116u8, 117u8, 114u8, 101u8]
}

pub fn tok_tag_texture() -> (r: Vec<u8>)
    ensures
        r@ == lit_tag_texture(),
{
    let a: [u8; 7] = [116, 101, 120, 116, 117, 114, 101];
    let r = slice_to_vec(a.as_slice());
    proof {
        assert(r@ =~= lit_tag_texture());
    }
    r
}

/// The bytes of `blackbody`.
pub open spec fn lit_tag_blackbody() -> Seq<u8> {
    seq![98u8, 108u8, 97u8, 99u8, 107u8, 98u8, 111u8, 100u8, 121u8]
}

pub fn tok_tag_blackbody() -> (r: Vec<u8>)
    ensures
        r@ == lit_tag_blackbody(),
{
    let a: [u8; 9] = [98, 108, 97, 99, 107, 98, 111, 100, 121];
    let r = slice_to_vec(a.as_slice());
    proof {
        assert(r@ =~= lit_tag_blackbody());
    }
    r
}

/// The bytes of `[`.
pub open spec fn lit_lbrack() -> Seq<u8> {
    seq![91u8]
}

pub fn tok_lbrack() -> (r: Vec<u8>)
    ensures
        r@ == lit_lbrack(),
{
    let a: [u8; 1] = [91];
    let r = slice_to_vec(a.as_slice());
    proof {
        assert(r@ =~= lit_lbrack());
    }
    r
}

/// The bytes of `]`.
pub open spec fn lit_rbrack() -> Seq<u8> {
    seq![93u8]
}

pub fn tok_rbrack() -> (r: Vec<u8>)
    ensures
        r@ == lit_rbrack(),
{
    let a: [u8; 1] = [93];
    let r = slice_to_vec(a.as_slice());
    proof {
        assert(r@ =~= lit_rbrack());
    }
    r
}

/// The bytes of `\"`.
pub open spec fn lit_quote() -> Seq<u8> {
    seq![34u8]
}

pub fn tok_quote() -> (r: Vec<u8>)
    ensures
        r@ == lit_quote(),
{
    let a: [u8; 1] = [34];
    let r = slice_to_vec(a.as_slice());
    proof {
        assert(r@ =~= lit_quote());
    }
    r
}

/// The bytes of `quoted name`.
pub open spec fn lit_name_label() -> Seq<u8> {
    seq![113u8, 117u8, 111u8, 116u8, 101u8, 100u8, 32u8, 110u8, 97u8, 109u8, 101u8]
}

pub fn tok_name_label() -> (r: Vec<u8>)
    ensures
        r@ == lit_name_label(),
{
    let a: [u8; 11] = [113, 117, 111, 116, 101, 100, 32, 110, 97, 109, 101];
    let r = slice_to_vec(a.as_slice());
    proof {
        assert(r@ =~= lit_name_label());
    }
    r
}

/// The bytes of `boolean literal`.
pub open spec fn lit_bool_label() -> Seq<u8> {
    seq![98u8, 111u8, 111u8, 108u8, 101u8, 97u8, 110u8, 32u8, 108u8, 105u8, 116u8, 101u8, 114u8, 97u8, 108u8]
}

pub fn tok_bool_label() -> (r: Vec<u8>)
    ensures
        r@ == lit_bool_label(),
{
    let a: [u8; 15] = [98, 111, 111, 108, 101, 97, 110, 32, 108, 105, 116, 101, 114, 97, 108];
    let r = slice_to_vec(a.as_slice());
    proof {
        assert(r@ =~= lit_bool_label());
    }
    r
}

/// The bytes of `world directive`.
pub open spec fn lit_directive_label() -> Seq<u8> {
    seq![119u8, 111u8, 114u8, 108u8, 100u8, 32u8, 100u8, 105u8, 114u8, 101u8, 99u8, 116u8, 105u8, 118u8, 101u8]
}

pub fn tok_directive_label() -> (r: Vec<u8>)
    ensures
        r@ == lit_directive_label(),
{
    let a: [u8; 15] = [119, 111, 114, 108, 100, 32, 100, 105, 114, 101, 99, 116, 105, 118, 101];
    let r = slice_to_vec(a.as_slice());
    proof {
        assert(r@ =~= lit_directive_label());
    }
    r
}

/// The bytes of `end of input`.
pub open spec fn lit_eoi_label() -> Seq<u8> {
    seq![101u8, 110u8, 100u8, 32u8, 111u8, 102u8, 32u8, 105u8, 110u8, 112u8, 117u8, 116u8]
}

pub fn tok_eoi_label() -> (r: Vec<u8>)
    ensures
        r@ == lit_eoi_label(),
{
    let a: [u8; 12] = [101, 110, 100, 32, 111, 102, 32, 105, 110, 112, 117, 116];
    let r = slice_to_vec(a.as_slice());
    proof {
        assert(r@ =~= lit_eoi_label());
    }
    r
}

} // verus!
