//! Derives a perceptually ordered color palette from raster pixels and
//! computes a background/foreground pair for a desktop theme.
//!
//! All color arithmetic is carried out in a fixed-point encoding of a
//! Lab-like perceptual space so that every stage of the pipeline is a pure,
//! verified function: conversion of 8-bit pixels to perceptual coordinates,
//! k-means clustering into a fixed number of centroids, ordering by chroma,
//! selection of the extreme pair, optional saturation adjustment, and hex
//! encoding of the final pair.

pub mod fixmath;
pub mod color;
pub mod convert;
pub mod cluster;
pub mod select;
pub mod adjust;
pub mod hex;
pub mod config;
pub mod pipeline;
