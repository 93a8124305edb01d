//! The Lua side of a workflow: conversion of Lua values to and from the JSON
//! model, and the text of errors raised while Lua runs.
pub mod error;
pub mod json;
